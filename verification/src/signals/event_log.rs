//! The machine's event log: the records of one channel as bytes, and the entries that wait
//! for the next analysis.

use crate::keyed::{
    distinct, lemma_table_contains, lemma_table_lookup, lemma_table_push, lemma_table_update,
    table,
};
use crate::models::{EventLogEntry, Moment};
use crate::text::{
    decimal, decimal_text, join, joined, lemma_views_push, lossy_utf16, same, single_spaced,
    single_spacing_makes_no_longer, total_len, utf16_lossy, views, with_single_spaces,
};
use vstd::prelude::*;
use vstd::string::*;

verus! {

/// Records collected from one channel in a single poll at most.
pub const MAX_PER_POLL: usize = 100;

/// Entries kept between two analyses; the oldest are dropped first.
pub const BUFFER_CAP: usize = 100;

/// Sixteen-bit units kept of a record's insertion strings together.
pub const MAX_EVENT_DETAIL_CHARS: usize = 2048;

/// Largest record that is read.
pub const MAX_EVENT_RECORD_BYTES: usize = 1024 * 1024;

/// Sixteen-bit units kept of a record's source.
pub const MAX_EVENT_SOURCE_CHARS: usize = 256;

/// Insertion strings read of one record at most.
pub const MAX_INSERTION_STRINGS: usize = 16;

/// Bytes of a record's fixed header.
pub const HEADER_LEN: usize = 56;

// ── Entries ───────────────────────────────────────────────────────────────────

/// An entry with its texts as characters.
pub struct EntryModel {
    pub timestamp: Moment,
    pub level: Seq<char>,
    pub source: Seq<char>,
    pub message: Seq<char>,
    pub event_id: u32,
}

impl View for EventLogEntry {
    type V = EntryModel;

    open spec fn view(&self) -> EntryModel {
        EntryModel {
            timestamp: self.timestamp,
            level: self.level@,
            source: self.source@,
            message: self.message@,
            event_id: self.event_id,
        }
    }
}

/// The views of a sequence of entries.
pub open spec fn entry_views(entries: Seq<EventLogEntry>) -> Seq<EntryModel> {
    entries.map_values(|e: EventLogEntry| e@)
}

pub proof fn lemma_entry_push(entries: Seq<EventLogEntry>, e: EventLogEntry)
    ensures
        entry_views(entries.push(e)) == entry_views(entries).push(e@),
{
    assert(entry_views(entries.push(e)) =~= entry_views(entries).push(e@));
}

/// The last `cap` items of a sequence, or all of it where it is shorter.
pub open spec fn newest<A>(s: Seq<A>, cap: int) -> Seq<A> {
    if s.len() <= cap {
        s
    } else {
        s.skip(s.len() - cap)
    }
}

/// The entries that wait for the next analysis, the one that waits longest first.
pub struct EventBuffer {
    pub entries: Vec<EventLogEntry>,
}

impl EventBuffer {
    /// Never more entries than the cap.
    pub open spec fn wf(self) -> bool {
        self.entries@.len() <= BUFFER_CAP
    }

    /// Nothing waits.
    pub fn new() -> (r: EventBuffer)
        ensures
            r.wf(),
            r.entries@.len() == 0,
    {
        EventBuffer { entries: Vec::new() }
    }

    /// Add entries, in their order; beyond the cap those that waited longest go.
    pub fn push_all(&mut self, entries: Vec<EventLogEntry>)
        requires
            old(self).wf(),
        ensures
            final(self).wf(),
            final(self).entries@ == newest(old(self).entries@ + entries@, BUFFER_CAP as int),
    {
        let ghost had = self.entries@;
        let ghost new = entries@;
        assert(had + new.take(0) =~= had);
        for entry in it: entries
            invariant
                it.seq() == new,
                self.entries@ == newest(had + new.take(it.index() as int), BUFFER_CAP as int),
                self.entries@.len() <= BUFFER_CAP,
        {
            let ghost i = it.index() as int;
            let ghost so_far = had + new.take(i);
            assert(had + new.take(i + 1) =~= so_far.push(entry));
            if self.entries.len() >= BUFFER_CAP {
                let _ = self.entries.remove(0);
            }
            self.entries.push(entry);
            assert(self.entries@ =~= newest(so_far.push(entry), BUFFER_CAP as int));
        }
        assert(new.take(new.len() as int) =~= new);
    }

    /// Take everything that waits: each entry is delivered once.
    pub fn drain(&mut self) -> (r: Vec<EventLogEntry>)
        ensures
            final(self).wf(),
            r@ == old(self).entries@,
            final(self).entries@.len() == 0,
    {
        let mut out: Vec<EventLogEntry> = Vec::new();
        std::mem::swap(&mut out, &mut self.entries);
        out
    }
}

/// Whether one of the entries is an error.
pub open spec fn any_error(entries: Seq<EventLogEntry>) -> bool {
    exists|i: int| 0 <= i < entries.len() && (#[trigger] entries[i]).level@ == "Error"@
}

/// Whether new entries wake the decision loop at once. A warning does not: warnings come
/// all the time, and the scheduled analysis sees them.
pub fn wakes_the_loop(entries: &Vec<EventLogEntry>) -> (r: bool)
    ensures
        r == any_error(entries@),
{
    let mut i: usize = 0;
    while i < entries.len()
        invariant
            i <= entries@.len(),
            forall|k: int| 0 <= k < i ==> (#[trigger] entries@[k]).level@ != "Error"@,
        decreases entries@.len() - i,
    {
        if same(entries[i].level.as_str(), "Error") {
            return true;
        }
        i += 1;
    }
    false
}

// ── Records ───────────────────────────────────────────────────────────────────

/// The level that a record's type stands for.
pub open spec fn level_of(event_type: u16) -> Option<Seq<char>> {
    if event_type == 1 {
        Some("Error"@)
    } else if event_type == 2 {
        Some("Warning"@)
    } else if event_type == 4 {
        Some("Information"@)
    } else {
        None
    }
}

/// The level that a record's type stands for; other types are not listed.
pub fn level_name(event_type: u16) -> (r: Option<&'static str>)
    ensures
        match r {
            Some(name) => level_of(event_type) == Some(name@),
            None => level_of(event_type) is None,
        },
{
    if event_type == 1 {
        Some("Error")
    } else if event_type == 2 {
        Some("Warning")
    } else if event_type == 4 {
        Some("Information")
    } else {
        None
    }
}

/// The sixteen-bit number at a position, low byte first.
pub open spec fn le16(b: Seq<u8>, at: int) -> int {
    b[at] + 256 * b[at + 1]
}

/// The thirty-two-bit number at a position, low byte first.
pub open spec fn le32(b: Seq<u8>, at: int) -> int {
    le16(b, at) + 65536 * le16(b, at + 2)
}

fn read16(b: &Vec<u8>, at: usize) -> (r: u16)
    requires
        at + 2 <= b@.len(),
    ensures
        r == le16(b@, at as int),
{
    let len: usize = b.len();
    assert(at + 2 <= len);
    b[at] as u16 + 256 * (b[at + 1] as u16)
}

fn read32(b: &Vec<u8>, at: usize) -> (r: u32)
    requires
        at + 4 <= b@.len(),
    ensures
        r == le32(b@, at as int),
{
    let len: usize = b.len();
    assert(at + 4 <= len);
    read16(b, at) as u32 + 65536 * (read16(b, at + 2) as u32)
}

/// What a record's fixed header says.
#[derive(Debug, Clone, Copy, PartialEq, Eq, Structural)]
pub struct RecordHeader {
    pub length: u32,
    pub record_number: u32,
    pub time_generated: u32,
    pub event_id: u32,
    pub event_type: u16,
    pub num_strings: u16,
    pub string_offset: u32,
}

/// The header at the start of some bytes.
pub open spec fn header_of(b: Seq<u8>) -> RecordHeader {
    RecordHeader {
        length: le32(b, 0) as u32,
        record_number: le32(b, 8) as u32,
        time_generated: le32(b, 12) as u32,
        event_id: le32(b, 20) as u32,
        event_type: le16(b, 24) as u16,
        num_strings: le16(b, 26) as u16,
        string_offset: le32(b, 36) as u32,
    }
}

/// The header of the record that some bytes start with: the header has to be there whole,
/// and the record it speaks of as well.
pub open spec fn record_header(b: Seq<u8>) -> Option<RecordHeader> {
    if b.len() >= HEADER_LEN && HEADER_LEN <= header_of(b).length <= b.len() {
        Some(header_of(b))
    } else {
        None
    }
}

fn le_copy(b: &Vec<u8>, from: usize, to: usize) -> (r: Vec<u8>)
    requires
        from <= to <= b@.len(),
    ensures
        r@ == b@.subrange(from as int, to as int),
{
    let mut r: Vec<u8> = Vec::new();
    let mut i: usize = from;
    while i < to
        invariant
            from <= i <= to <= b@.len(),
            r@ == b@.subrange(from as int, i as int),
        decreases to - i,
    {
        r.push(b[i]);
        assert(b@.subrange(from as int, i + 1) =~= b@.subrange(from as int, i as int).push(
            b@[i as int],
        ));
        i += 1;
    }
    r
}

/// The header and the bytes of the record that some bytes start with.
pub fn parse_record(bytes: &Vec<u8>) -> (r: Option<(RecordHeader, Vec<u8>)>)
    ensures
        match r {
            Some((header, record)) => record_header(bytes@) == Some(header) && record@
                == bytes@.take(header.length as int),
            None => record_header(bytes@) is None,
        },
{
    if bytes.len() < HEADER_LEN {
        return None;
    }
    let header = RecordHeader {
        length: read32(bytes, 0),
        record_number: read32(bytes, 8),
        time_generated: read32(bytes, 12),
        event_id: read32(bytes, 20),
        event_type: read16(bytes, 24),
        num_strings: read16(bytes, 26),
        string_offset: read32(bytes, 36),
    };
    let length: usize = header.length as usize;
    if length < HEADER_LEN || length > bytes.len() {
        return None;
    }
    let record = le_copy(bytes, 0, length);
    assert(record@ =~= bytes@.take(length as int));
    Some((header, record))
}

/// The units of a text from a position on: up to a zero, the end of the bytes, or `max`
/// units.
pub open spec fn units_from(b: Seq<u8>, at: int, max: int) -> Seq<u16>
    decreases max,
{
    if max <= 0 || at < 0 || at + 1 >= b.len() || le16(b, at) == 0 {
        Seq::empty()
    } else {
        seq![le16(b, at) as u16] + units_from(b, at + 2, max - 1)
    }
}

/// The name of the source that wrote a record: the text after its header.
pub fn source_name(record: &Vec<u8>) -> (r: String)
    ensures
        r@ == utf16_lossy(units_from(record@, HEADER_LEN as int, MAX_EVENT_SOURCE_CHARS as int)),
        r@.len() <= MAX_EVENT_SOURCE_CHARS,
{
    let mut units: Vec<u16> = Vec::new();
    let len: usize = record.len();
    let mut at: usize = HEADER_LEN;
    let mut left: usize = MAX_EVENT_SOURCE_CHARS;
    let ghost all = units_from(record@, HEADER_LEN as int, MAX_EVENT_SOURCE_CHARS as int);
    assert(units@ + all =~= all);
    while left > 0 && at < len && len - at > 1
        invariant_except_break
            len == record@.len(),
            left <= MAX_EVENT_SOURCE_CHARS,
            units@.len() + left == MAX_EVENT_SOURCE_CHARS,
            at >= HEADER_LEN,
            all == units@ + units_from(record@, at as int, left as int),
        ensures
            units@ == all,
            units@.len() <= MAX_EVENT_SOURCE_CHARS,
        decreases left,
    {
        let unit: u16 = read16(record, at);
        if unit == 0 {
            assert(units@ + Seq::<u16>::empty() =~= units@);
            break;
        }
        let ghost before = units@;
        units.push(unit);
        assert(all =~= units@ + units_from(record@, at + 2, left - 1));
        left -= 1;
        if len - at < 3 {
            assert(units_from(record@, at + 2, left as int) =~= Seq::<u16>::empty());
            assert(all =~= units@);
            break;
        }
        at += 2;
    }
    lossy_utf16(units.as_slice())
}

/// Where reading the insertion strings stands.
pub struct StringScan {
    /// The position of the next string.
    pub at: int,
    /// How many units may still be taken.
    pub left: int,
    /// The strings so far.
    pub out: Seq<Seq<char>>,
    /// No further string is read.
    pub stopped: bool,
}

/// The strings so far with one more, its words a space apart, unless it has none.
pub open spec fn with_string(out: Seq<Seq<char>>, units: Seq<u16>) -> Seq<Seq<char>> {
    let text = single_spaced(utf16_lossy(units));
    if units.len() > 0 && text.len() > 0 {
        out.push(text)
    } else {
        out
    }
}

/// Whether the string of `taken` units at a position is ended by a zero.
pub open spec fn ended(b: Seq<u8>, at: int, taken: int) -> bool {
    at + 2 * taken + 1 < b.len() && le16(b, at + 2 * taken) == 0
}

/// The scan after up to `count` strings.
pub open spec fn scan_strings(b: Seq<u8>, start: int, count: int, max: int) -> StringScan
    decreases count,
{
    if count <= 0 {
        StringScan { at: start, left: max, out: Seq::empty(), stopped: false }
    } else {
        let s = scan_strings(b, start, count - 1, max);
        if s.stopped {
            s
        } else {
            let units = units_from(b, s.at, s.left);
            let n = units.len() as int;
            let closed = ended(b, s.at, n);
            StringScan {
                at: s.at + 2 * n + 2,
                left: s.left - n,
                out: with_string(s.out, units),
                stopped: s.left == n || !closed,
            }
        }
    }
}

/// The insertion strings of a record.
pub open spec fn strings_of(b: Seq<u8>, start: int, count: int, max: int) -> Seq<Seq<char>> {
    if start >= b.len() || max == 0 {
        Seq::empty()
    } else {
        scan_strings(
            b,
            start,
            if count < MAX_INSERTION_STRINGS {
                count
            } else {
                MAX_INSERTION_STRINGS as int
            },
            max,
        ).out
    }
}

proof fn lemma_units_len(b: Seq<u8>, at: int, max: int)
    requires
        max >= 0,
        at >= 0,
    ensures
        units_from(b, at, max).len() <= max,
        units_from(b, at, max).len() > 0 ==> at + 2 * units_from(b, at, max).len() <= b.len(),
    decreases max,
{
    if !(max <= 0 || at + 1 >= b.len() || le16(b, at) == 0) {
        lemma_units_len(b, at + 2, max - 1);
    }
}

/// The units at a position, and whether a zero ends them.
fn take_units(b: &Vec<u8>, at: usize, max: usize) -> (r: Vec<u16>)
    ensures
        r@ == units_from(b@, at as int, max as int),
        r@.len() <= max,
{
    let len: usize = b.len();
    let mut units: Vec<u16> = Vec::new();
    let mut pos: usize = at;
    let mut left: usize = max;
    let ghost all = units_from(b@, at as int, max as int);
    assert(units@ + all =~= all);
    while left > 0 && pos < len && len - pos > 1
        invariant_except_break
            len == b@.len(),
            left <= max,
            units@.len() + left == max,
            all == units@ + units_from(b@, pos as int, left as int),
        ensures
            units@ == all,
            units@.len() <= max,
        decreases left,
    {
        let unit: u16 = read16(b, pos);
        if unit == 0 {
            assert(units@ + Seq::<u16>::empty() =~= units@);
            break;
        }
        units.push(unit);
        assert(all =~= units@ + units_from(b@, pos + 2, left - 1));
        left -= 1;
        if len - pos < 3 {
            assert(units_from(b@, pos + 2, left as int) =~= Seq::<u16>::empty());
            assert(all =~= units@);
            break;
        }
        pos += 2;
    }
    units
}

/// The event-specific insertion strings stored inside one record. Their number and their
/// total length are bounded, since event data is not to be trusted.
pub fn insertion_strings(
    record: &Vec<u8>,
    string_offset: usize,
    count: usize,
    max_chars: usize,
) -> (r: Vec<String>)
    ensures
        views(r@) == strings_of(
            record@,
            string_offset as int,
            count as int,
            max_chars as int,
        ),
        total_len(views(r@)) <= max_chars,
        r@.len() <= MAX_INSERTION_STRINGS,
{
    let mut out: Vec<String> = Vec::new();
    assert(views(out@) =~= Seq::<Seq<char>>::empty());
    let len: usize = record.len();
    if string_offset >= len || max_chars == 0 {
        return out;
    }
    let most: usize = if count < MAX_INSERTION_STRINGS {
        count
    } else {
        MAX_INSERTION_STRINGS
    };
    let mut at: usize = string_offset;
    let mut left: usize = max_chars;
    let mut stopped = false;
    let mut k: usize = 0;
    let ghost start = string_offset as int;
    let ghost max = max_chars as int;
    while k < most
        invariant
            k <= most,
            len == record@.len(),
            !stopped ==> at <= len,
            most <= MAX_INSERTION_STRINGS,
            out@.len() <= k,
            total_len(views(out@)) <= max_chars,
            !stopped ==> total_len(views(out@)) + left <= max_chars,
            ({
                let s = scan_strings(record@, start, k as int, max);
                &&& views(out@) == s.out
                &&& stopped == s.stopped
                &&& !stopped ==> at == s.at && left == s.left
            }),
        decreases most - k,
    {
        if !stopped {
            let ghost s = scan_strings(record@, start, k as int, max);
            let units = take_units(record, at, left);
            let n: usize = units.len();
            proof {
                lemma_units_len(record@, at as int, left as int);
            }
            let after: usize = at + 2 * n;
            let closed = after < len && len - after > 1 && read16(record, after) == 0;
            assert(closed == ended(record@, at as int, n as int));
            if n > 0 {
                let text = lossy_utf16(units.as_slice());
                let value = with_single_spaces(text.as_str());
                proof {
                    single_spacing_makes_no_longer(text@);
                    assert(views(out@).push(value@).drop_last() =~= views(out@));
                }
                if !value.as_str().is_empty() {
                    proof {
                        lemma_views_push(out@, value);
                    }
                    out.push(value);
                }
            }
            assert(views(out@) == with_string(s.out, units@));
            left -= n;
            if left == 0 || !closed {
                stopped = true;
            } else {
                at = after + 2;
            }
        }
        k += 1;
    }
    out
}

/// What an entry says of a record: its number, and its strings where it has any.
pub open spec fn message_of(event_id: int, details: Seq<Seq<char>>) -> Seq<char> {
    if details.len() == 0 {
        "EventID "@ + decimal(event_id as nat)
    } else {
        "EventID "@ + decimal(event_id as nat) + ": "@ + join(details, " | "@)
    }
}

fn message_for(event_id: u32, details: &Vec<String>) -> (r: String)
    ensures
        r@ == message_of(event_id as int, views(details@)),
{
    assert(views(details@).len() == details@.len());
    let mut text = "EventID ".to_owned();
    let number = decimal_text(event_id as u64);
    text.append(number.as_str());
    if details.len() > 0 {
        text.append(": ");
        let rest = joined(details, " | ");
        text.append(rest.as_str());
    }
    text
}

/// The entry of a record, if its type is listed.
pub open spec fn entry_of(header: RecordHeader, record: Seq<u8>) -> Option<EntryModel> {
    match level_of(header.event_type) {
        Some(level) => Some(
            EntryModel {
                timestamp: Moment { secs: header.time_generated as i64, nanos: 0 },
                level,
                source: utf16_lossy(
                    units_from(record, HEADER_LEN as int, MAX_EVENT_SOURCE_CHARS as int),
                ),
                message: message_of(
                    header.event_id as int % 65536,
                    strings_of(
                        record,
                        header.string_offset as int,
                        header.num_strings as int,
                        MAX_EVENT_DETAIL_CHARS as int,
                    ),
                ),
                event_id: (header.event_id as int % 65536) as u32,
            },
        ),
        None => None,
    }
}

fn entry_for(header: RecordHeader, record: &Vec<u8>) -> (r: Option<EventLogEntry>)
    ensures
        match r {
            Some(entry) => entry_of(header, record@) == Some(entry@),
            None => entry_of(header, record@) is None,
        },
{
    match level_name(header.event_type) {
        Some(level) => {
            let event_id: u32 = header.event_id % 65536;
            let details = insertion_strings(
                record,
                header.string_offset as usize,
                header.num_strings as usize,
                MAX_EVENT_DETAIL_CHARS,
            );
            Some(
                EventLogEntry {
                    timestamp: Moment { secs: header.time_generated as i64, nanos: 0 },
                    level: level.to_owned(),
                    source: source_name(record),
                    message: message_for(event_id, &details),
                    event_id,
                },
            )
        },
        None => None,
    }
}

// ── One poll of a channel ─────────────────────────────────────────────────────

/// Where a poll of a channel stands. Records come newest first.
pub struct ChannelScan {
    /// The highest record number that was delivered before.
    pub last_record: u32,
    /// The newest record number, once it is known.
    pub newest: Option<u32>,
    /// Nothing is delivered: this poll only finds out where the channel stands.
    pub reseed_only: bool,
    pub done: bool,
    pub entries: Vec<EventLogEntry>,
}

/// A poll with its entries as characters.
pub struct ScanModel {
    pub last_record: u32,
    pub newest: Option<u32>,
    pub reseed_only: bool,
    pub done: bool,
    pub entries: Seq<EntryModel>,
}

impl View for ChannelScan {
    type V = ScanModel;

    open spec fn view(&self) -> ScanModel {
        ScanModel {
            last_record: self.last_record,
            newest: self.newest,
            reseed_only: self.reseed_only,
            done: self.done,
            entries: entry_views(self.entries@),
        }
    }
}

/// The poll once it has seen a record. The newest record says where the channel stands; one
/// that is older than what was delivered before means that the log was cleared, and then as
/// on the first poll nothing is delivered. Records that were delivered before end the poll,
/// and so does its cap.
pub open spec fn seen_record(s: ScanModel, header: RecordHeader, record: Seq<u8>) -> ScanModel {
    let number = header.record_number;
    let newest = match s.newest {
        Some(n) => if number > n {
            number
        } else {
            n
        },
        None => number,
    };
    let cleared = s.newest is None && s.last_record > 0 && number < s.last_record;
    let reseed = s.reseed_only || cleared;
    if reseed || (s.last_record > 0 && number <= s.last_record) {
        ScanModel {
            newest: Some(
                match s.newest {
                    Some(n) => n,
                    None => number,
                },
            ),
            reseed_only: reseed,
            done: true,
            ..s
        }
    } else {
        let entries = match entry_of(header, record) {
            Some(entry) => s.entries.push(entry),
            None => s.entries,
        };
        ScanModel { newest: Some(newest), entries, done: entries.len() >= MAX_PER_POLL, ..s }
    }
}

/// The poll once it has seen the records from a position on. A malformed record ends it.
pub open spec fn seen_from(s: ScanModel, b: Seq<u8>, at: int) -> ScanModel
    decreases b.len() - at,
{
    if s.done || at < 0 || at >= b.len() {
        s
    } else {
        match record_header(b.skip(at)) {
            Some(header) => if header.length >= HEADER_LEN {
                seen_from(
                    seen_record(s, header, b.skip(at).take(header.length as int)),
                    b,
                    at + header.length,
                )
            } else {
                s
            },
            None => ScanModel { done: true, ..s },
        }
    }
}

/// A poll that has read nothing yet. On the first poll of a channel nothing is delivered.
pub open spec fn poll_begun(last_record: u32, prime: bool) -> ScanModel {
    ScanModel {
        last_record,
        newest: None,
        reseed_only: prime,
        done: false,
        entries: Seq::empty(),
    }
}

/// The poll once it has gone through some reads, one after the other.
pub open spec fn polled(s: ScanModel, reads: Seq<Seq<u8>>) -> ScanModel
    decreases reads.len(),
{
    if reads.len() == 0 {
        s
    } else {
        seen_from(polled(s, reads.drop_last()), reads.last(), 0)
    }
}

/// Whether a poll is within its cap; one that has reached it is over.
pub open spec fn within_cap(s: ScanModel) -> bool {
    s.entries.len() <= MAX_PER_POLL && (s.entries.len() == MAX_PER_POLL ==> s.done)
}

impl ChannelScan {
    /// Start a poll. On the first poll of a channel nothing is delivered: what is in the log
    /// already is history.
    pub fn begin(last_record: u32, prime: bool) -> (r: ChannelScan)
        ensures
            r@ == poll_begun(last_record, prime),
            within_cap(r@),
    {
        let r = ChannelScan {
            last_record,
            newest: None,
            reseed_only: prime,
            done: false,
            entries: Vec::new(),
        };
        assert(r@.entries =~= Seq::<EntryModel>::empty());
        r
    }

    fn see(&mut self, header: RecordHeader, record: &Vec<u8>)
        ensures
            final(self)@ == seen_record(old(self)@, header, record@),
    {
        let number: u32 = header.record_number;
        let cleared = match self.newest {
            Some(_) => false,
            None => self.last_record > 0 && number < self.last_record,
        };
        if cleared {
            self.reseed_only = true;
        }
        if self.reseed_only || (self.last_record > 0 && number <= self.last_record) {
            if self.newest.is_none() {
                self.newest = Some(number);
            }
            self.done = true;
            return ;
        }
        self.newest = match self.newest {
            Some(n) => Some(
                if number > n {
                    number
                } else {
                    n
                },
            ),
            None => Some(number),
        };
        if let Some(entry) = entry_for(header, record) {
            proof {
                lemma_entry_push(self.entries@, entry);
            }
            self.entries.push(entry);
        }
        assert(entry_views(self.entries@).len() == self.entries@.len());
        self.done = self.entries.len() >= MAX_PER_POLL;
    }

    /// Go on with the bytes of one read.
    pub fn absorb(&mut self, bytes: &Vec<u8>)
        ensures
            final(self)@ == seen_from(old(self)@, bytes@, 0),
            within_cap(old(self)@) ==> within_cap(final(self)@),
    {
        proof {
            if within_cap(self@) {
                lemma_poll_is_bounded(self@, bytes@, 0);
            }
        }
        let len: usize = bytes.len();
        let mut at: usize = 0;
        while at < len && !self.done
            invariant
                at <= len,
                len == bytes@.len(),
                seen_from(self@, bytes@, at as int) == seen_from(old(self)@, bytes@, 0),
            decreases len - at,
        {
            let rest = le_copy(bytes, at, len);
            assert(rest@ =~= bytes@.skip(at as int));
            match parse_record(&rest) {
                Some((header, record)) => {
                    self.see(header, &record);
                    at += header.length as usize;
                },
                None => {
                    self.done = true;
                    at = len;
                },
            }
        }
    }

    /// The highest record number to remember after this poll.
    pub fn cursor(&self) -> (r: u32)
        ensures
            r == (match self@.newest {
                Some(n) => n,
                None => self@.last_record,
            }),
    {
        match self.newest {
            Some(n) => n,
            None => self.last_record,
        }
    }
}

/// How large a buffer to read with again after a read failed for want of room; none where
/// it was not for want of room, or the record is larger than any that is read.
pub fn larger_buffer(needed: usize, have: usize) -> (r: Option<usize>)
    ensures
        r == (if have < needed <= MAX_EVENT_RECORD_BYTES {
            Some(needed)
        } else {
            None
        }),
{
    if needed > have && needed <= MAX_EVENT_RECORD_BYTES {
        Some(needed)
    } else {
        None
    }
}

proof fn lemma_reseed_delivers_nothing(s: ScanModel, b: Seq<u8>, at: int)
    requires
        s.reseed_only,
        s.entries.len() == 0,
    ensures
        seen_from(s, b, at).entries.len() == 0,
        seen_from(s, b, at).reseed_only,
    decreases b.len() - at,
{
    if !(s.done || at < 0 || at >= b.len()) {
        match record_header(b.skip(at)) {
            Some(header) => {
                let next = seen_record(s, header, b.skip(at).take(header.length as int));
                lemma_reseed_delivers_nothing(next, b, at + header.length);
            },
            None => {},
        }
    }
}

/// The first poll of a channel delivers nothing, whatever the log holds and however often it
/// is read.
pub proof fn first_poll_delivers_nothing(last_record: u32, reads: Seq<Seq<u8>>)
    ensures
        polled(poll_begun(last_record, true), reads).entries.len() == 0,
        polled(poll_begun(last_record, true), reads).reseed_only,
    decreases reads.len(),
{
    if reads.len() > 0 {
        first_poll_delivers_nothing(last_record, reads.drop_last());
        let before = polled(poll_begun(last_record, true), reads.drop_last());
        lemma_reseed_delivers_nothing(before, reads.last(), 0);
    }
}

proof fn lemma_poll_is_bounded(s: ScanModel, b: Seq<u8>, at: int)
    requires
        within_cap(s),
    ensures
        within_cap(seen_from(s, b, at)),
    decreases b.len() - at,
{
    if !(s.done || at < 0 || at >= b.len()) {
        match record_header(b.skip(at)) {
            Some(header) => {
                let next = seen_record(s, header, b.skip(at).take(header.length as int));
                lemma_poll_is_bounded(next, b, at + header.length);
            },
            None => {},
        }
    }
}

/// However many records a log holds, and however many reads a poll takes, it delivers no more
/// than the cap.
pub proof fn poll_is_bounded(last_record: u32, prime: bool, reads: Seq<Seq<u8>>)
    ensures
        polled(poll_begun(last_record, prime), reads).entries.len() <= MAX_PER_POLL,
        within_cap(polled(poll_begun(last_record, prime), reads)),
    decreases reads.len(),
{
    if reads.len() > 0 {
        poll_is_bounded(last_record, prime, reads.drop_last());
        let before = polled(poll_begun(last_record, prime), reads.drop_last());
        lemma_poll_is_bounded(before, reads.last(), 0);
    }
}

proof fn lemma_done_stays(s: ScanModel, reads: Seq<Seq<u8>>)
    requires
        s.done,
    ensures
        polled(s, reads) == s,
    decreases reads.len(),
{
    if reads.len() > 0 {
        lemma_done_stays(s, reads.drop_last());
    }
}

proof fn lemma_polled_on(s: ScanModel, reads: Seq<Seq<u8>>, more: Seq<Seq<u8>>)
    ensures
        polled(s, reads + more) == polled(polled(s, reads), more),
    decreases more.len(),
{
    if more.len() == 0 {
        assert(reads + more =~= reads);
    } else {
        lemma_polled_on(s, reads, more.drop_last());
        assert((reads + more).drop_last() =~= reads + more.drop_last());
        assert((reads + more).last() == more.last());
    }
}

/// A poll that is over takes nothing of what is read after that: once it has come to a record
/// that was delivered before, to a malformed one, or to its cap, older records change nothing.
pub proof fn ended_poll_takes_nothing_more(
    s: ScanModel,
    reads: Seq<Seq<u8>>,
    more: Seq<Seq<u8>>,
)
    requires
        polled(s, reads).done,
    ensures
        polled(s, reads + more) == polled(s, reads),
{
    lemma_polled_on(s, reads, more);
    lemma_done_stays(polled(s, reads), more);
}

// ── Positions of the channels ─────────────────────────────────────────────────

/// How far each channel was read, by its name.
pub struct ChannelCursors {
    pub known: Vec<(String, u32)>,
}

/// The positions as a table.
pub open spec fn cursor_pairs(known: Seq<(String, u32)>) -> Seq<(Seq<char>, u32)> {
    known.map_values(|c: (String, u32)| (c.0@, c.1))
}

impl View for ChannelCursors {
    type V = Map<Seq<char>, u32>;

    open spec fn view(&self) -> Map<Seq<char>, u32> {
        table(cursor_pairs(self.known@))
    }
}

impl ChannelCursors {
    /// No channel is listed twice.
    pub open spec fn wf(self) -> bool {
        distinct(cursor_pairs(self.known@))
    }

    /// No channel has been read.
    pub fn new() -> (r: ChannelCursors)
        ensures
            r.wf(),
            r@ == Map::<Seq<char>, u32>::empty(),
    {
        ChannelCursors { known: Vec::new() }
    }

    fn find(&self, channel: &str) -> (r: Option<usize>)
        ensures
            match r {
                Some(i) => i < self.known@.len() && cursor_pairs(self.known@)[i as int].0
                    == channel@,
                None => !self@.contains_key(channel@),
            },
    {
        let ghost pairs = cursor_pairs(self.known@);
        let mut i: usize = 0;
        while i < self.known.len()
            invariant
                i <= self.known@.len(),
                pairs == cursor_pairs(self.known@),
                forall|k: int| 0 <= k < i ==> (#[trigger] pairs[k]).0 != channel@,
            decreases self.known@.len() - i,
        {
            if same(self.known[i].0.as_str(), channel) {
                return Some(i);
            }
            assert(pairs[i as int].0 != channel@);
            i += 1;
        }
        proof {
            lemma_table_contains(pairs, channel@);
        }
        None
    }

    /// Start a poll of a channel: after what was delivered of it, or, the first time, only
    /// to find out where it stands.
    pub fn begin(&self, channel: &str) -> (r: ChannelScan)
        requires
            self.wf(),
        ensures
            r@ == (ScanModel {
                last_record: if self@.contains_key(channel@) {
                    self@[channel@]
                } else {
                    0
                },
                newest: None,
                reseed_only: !self@.contains_key(channel@),
                done: false,
                entries: Seq::empty(),
            }),
    {
        match self.find(channel) {
            Some(i) => {
                proof {
                    lemma_table_lookup(cursor_pairs(self.known@), i as int);
                }
                ChannelScan::begin(self.known[i].1, false)
            },
            None => ChannelScan::begin(0, true),
        }
    }

    /// Note how far a channel was read.
    pub fn record(&mut self, channel: &str, cursor: u32)
        requires
            old(self).wf(),
        ensures
            final(self).wf(),
            final(self)@ == old(self)@.insert(channel@, cursor),
    {
        let ghost pairs = cursor_pairs(self.known@);
        match self.find(channel) {
            Some(i) => {
                proof {
                    lemma_table_update(pairs, i as int, cursor);
                }
                self.known[i].1 = cursor;
                assert(cursor_pairs(self.known@) =~= pairs.update(
                    i as int,
                    (pairs[i as int].0, cursor),
                ));
            },
            None => {
                proof {
                    lemma_table_push(pairs, channel@, cursor);
                }
                self.known.push((channel.to_owned(), cursor));
                assert(cursor_pairs(self.known@) =~= pairs.push((channel@, cursor)));
            },
        }
    }
}

/// The entries of a poll the other way round: those of a channel are read newest first, and
/// wait oldest first.
pub fn oldest_first(entries: Vec<EventLogEntry>) -> (r: Vec<EventLogEntry>)
    ensures
        r@ == entries@.reverse(),
{
    let mut rest = entries;
    let ghost all = entries@;
    let mut out: Vec<EventLogEntry> = Vec::new();
    assert(all.take(all.len() as int) =~= all);
    assert(out@ =~= all.skip(all.len() as int).reverse());
    while rest.len() > 0
        invariant
            rest@.len() <= all.len(),
            rest@ == all.take(rest@.len() as int),
            out@ == all.skip(rest@.len() as int).reverse(),
        decreases rest@.len(),
    {
        let ghost n = rest@.len() as int;
        if let Some(entry) = rest.pop() {
            assert(entry == all[n - 1]);
            assert(rest@ =~= all.take(n - 1));
            out.push(entry);
            assert(out@ =~= all.skip(n - 1).reverse());
        }
    }
    assert(all.skip(0) =~= all);
    out
}

// ── What a poll delivers ──────────────────────────────────────────────────────

/// What is kept of a sequence is its end, as much of it as the cap allows.
pub proof fn newest_is_the_end<A>(s: Seq<A>, cap: int)
    requires
        cap >= 0,
    ensures
        newest(s, cap).len() == (if s.len() <= cap {
            s.len() as int
        } else {
            cap
        }),
        forall|i: int|
            0 <= i < newest(s, cap).len() ==> #[trigger] newest(s, cap)[i] == s[i + s.len()
                - newest(s, cap).len()],
{
}

/// Errors, warnings and information are listed under their names, and no other type is.
pub proof fn listed_types_go_by_their_names(event_type: u16)
    ensures
        level_of(1) == Some("Error"@),
        level_of(2) == Some("Warning"@),
        level_of(4) == Some("Information"@),
        event_type != 1 && event_type != 2 && event_type != 4 ==> level_of(event_type) is None,
{
}

/// Where the fields of a record's header stand: each number low byte first.
pub proof fn fields_stand_at_their_bytes(b: Seq<u8>)
    requires
        b.len() >= 56,
    ensures
        header_of(b).length == b[0] + 256 * b[1] + 65_536 * b[2] + 16_777_216 * b[3],
        header_of(b).record_number == b[8] + 256 * b[9] + 65_536 * b[10] + 16_777_216 * b[11],
        header_of(b).time_generated == b[12] + 256 * b[13] + 65_536 * b[14] + 16_777_216 * b[15],
        header_of(b).event_id == b[20] + 256 * b[21] + 65_536 * b[22] + 16_777_216 * b[23],
        header_of(b).event_type == b[24] + 256 * b[25],
        header_of(b).num_strings == b[26] + 256 * b[27],
        header_of(b).string_offset == b[36] + 256 * b[37] + 65_536 * b[38] + 16_777_216 * b[39],
{
}

/// A record is read only where the whole of it is there, its header included, and then it is.
pub proof fn whole_records_are_read(b: Seq<u8>)
    ensures
        record_header(b) is Some <==> b.len() >= 56 && 56 <= header_of(b).length <= b.len(),
        record_header(b) matches Some(h) ==> h == header_of(b),
{
}

/// The units of a text are those of its bytes, two to each, up to the first that is zero, to the
/// end of the bytes or to the cap.
pub proof fn units_are_read_up_to_a_zero(b: Seq<u8>, at: int, max: int)
    requires
        at >= 0,
        max >= 0,
    ensures
        units_from(b, at, max).len() <= max,
        forall|k: int|
            0 <= k < units_from(b, at, max).len() ==> (#[trigger] units_from(b, at, max)[k]) as int
                == b[at + 2 * k] + 256 * b[at + 2 * k + 1] && units_from(b, at, max)[k] != 0 && at
                + 2 * k + 1 < b.len(),
        ({
            let n = units_from(b, at, max).len() as int;
            n == max || at + 2 * n + 1 >= b.len() || b[at + 2 * n] + 256 * b[at + 2 * n + 1] == 0
        }),
    decreases max,
{
    if !(max <= 0 || at < 0 || at + 1 >= b.len() || le16(b, at) == 0) {
        units_are_read_up_to_a_zero(b, at + 2, max - 1);
        let rest = units_from(b, at + 2, max - 1);
        let all = units_from(b, at, max);
        assert forall|k: int| 0 <= k < all.len() implies (#[trigger] all[k]) as int == b[at + 2
            * k] + 256 * b[at + 2 * k + 1] && all[k] != 0 && at + 2 * k + 1 < b.len() by {
            if k > 0 {
                assert(all[k] == rest[k - 1]);
            }
        }
        let n = rest.len() as int;
        assert(all.len() == n + 1);
        assert(at + 2 + 2 * n == at + 2 * (n + 1));
    }
}

/// What an entry says of its record: the level of its type, its time, the low half of its number,
/// and a message that starts with that number.
pub proof fn entry_says_what_its_record_says(header: RecordHeader, record: Seq<u8>)
    ensures
        entry_of(header, record) is Some <==> level_of(header.event_type) is Some,
        entry_of(header, record) matches Some(e) ==> {
            &&& Some(e.level) == level_of(header.event_type)
            &&& e.timestamp.secs == header.time_generated && e.timestamp.nanos == 0
            &&& e.event_id == header.event_id as int % 65_536
            &&& e.source == utf16_lossy(units_from(record, 56, 256))
            &&& ("EventID "@ + decimal(e.event_id as nat)).is_prefix_of(e.message)
        },
{
    if let Some(e) = entry_of(header, record) {
        let start = "EventID "@ + decimal(e.event_id as nat);
        assert(start =~= e.message.take(start.len() as int));
    }
}

/// The message of a record without strings is its number alone; with strings they follow, all of
/// them and in order.
pub proof fn message_holds_every_string(event_id: int, details: Seq<Seq<char>>)
    ensures
        details.len() == 0 ==> message_of(event_id, details) == "EventID "@ + decimal(
            event_id as nat,
        ),
        details.len() > 0 ==> message_of(event_id, details) == "EventID "@ + decimal(
            event_id as nat,
        ) + ": "@ + join(details, " | "@),
{
}

/// A record that was not delivered before is delivered, in turn, if its type is listed; one that
/// was ends the poll, and changes nothing of what is delivered. The position is the highest
/// number that was seen, which the first record has.
pub proof fn new_records_are_delivered(s: ScanModel, header: RecordHeader, record: Seq<u8>)
    requires
        !s.done,
    ensures
        ({
            let after = seen_record(s, header, record);
            let number = header.record_number;
            let fresh = !s.reseed_only && (s.last_record == 0 || number > s.last_record);
            &&& fresh && entry_of(header, record) is Some ==> after.entries == s.entries.push(
                entry_of(header, record)->0,
            )
            &&& fresh && entry_of(header, record) is None ==> after.entries == s.entries
            &&& fresh ==> after.newest == Some(
                match s.newest {
                    Some(n) if n >= number => n,
                    _ => number,
                },
            )
            &&& fresh ==> (after.done <==> after.entries.len() >= 100)
            &&& !fresh ==> after.entries == s.entries && after.done
            &&& !fresh && s.newest is None ==> after.newest == Some(number)
            &&& !fresh && s.newest is Some ==> after.newest == s.newest
            &&& after.last_record == s.last_record
            &&& s.newest is None && number < s.last_record ==> after.reseed_only
        }),
{
}

/// The records of a read are seen one after the other, the next where the last ends; a malformed
/// one ends the poll.
pub proof fn records_are_seen_in_turn(s: ScanModel, b: Seq<u8>, at: int)
    requires
        !s.done,
        0 <= at < b.len(),
    ensures
        record_header(b.skip(at)) matches Some(h) ==> seen_from(s, b, at) == seen_from(
            seen_record(s, h, b.subrange(at, at + h.length)),
            b,
            at + h.length,
        ),
        record_header(b.skip(at)) is None ==> seen_from(s, b, at).done && seen_from(s, b, at).entries
            == s.entries && seen_from(s, b, at).newest == s.newest,
{
    if let Some(h) = record_header(b.skip(at)) {
        assert(b.skip(at).take(h.length as int) =~= b.subrange(at, at + h.length));
    }
}

/// New entries wake the loop exactly where one of them is an error.
pub proof fn errors_wake_the_loop(entries: Seq<EventLogEntry>, i: int)
    ensures
        0 <= i < entries.len() && entries[i].level@ == "Error"@ ==> any_error(entries),
        (forall|k: int| 0 <= k < entries.len() ==> (#[trigger] entries[k]).level@ != "Error"@)
            ==> !any_error(entries),
{
}

/// The strings of a record follow each other: each is read up to its zero, the next starts after
/// that, one of blanks is passed over, and reading ends with the first that no zero ends or that
/// uses up what may be taken.
pub proof fn strings_follow_each_other(b: Seq<u8>, start: int, count: int, max: int)
    requires
        count >= 0,
        !scan_strings(b, start, count, max).stopped,
    ensures
        ({
            let s = scan_strings(b, start, count, max);
            let next = scan_strings(b, start, count + 1, max);
            let units = units_from(b, s.at, s.left);
            let end = s.at + 2 * units.len();
            let text = single_spaced(utf16_lossy(units));
            &&& scan_strings(b, start, 0, max).at == start
            &&& scan_strings(b, start, 0, max).left == max
            &&& next.at == end + 2
            &&& next.left == s.left - units.len()
            &&& units.len() > 0 && text.len() > 0 ==> next.out == s.out.push(text)
            &&& units.len() == 0 || text.len() == 0 ==> next.out == s.out
            &&& !next.stopped ==> end + 1 < b.len() && b[end] == 0 && b[end + 1] == 0
                && units.len() != s.left
            &&& end + 1 < b.len() && b[end] + 256 * b[end + 1] == 0 && units.len() < s.left
                ==> !next.stopped
        }),
{
}

/// No more than sixteen strings are read of a record, and none past its end.
pub proof fn few_strings_are_read(b: Seq<u8>, start: int, count: int, max: int)
    ensures
        start >= b.len() ==> strings_of(b, start, count, max).len() == 0,
        start < b.len() && max != 0 && 0 <= count <= 16 ==> strings_of(b, start, count, max)
            == scan_strings(b, start, count, max).out,
        start < b.len() && max != 0 && count > 16 ==> strings_of(b, start, count, max)
            == scan_strings(b, start, 16, max).out,
{
}

/// What is buffered is handed out once, in order, and the buffer is empty then; a buffer that is
/// full keeps the newest entries.
pub proof fn buffer_is_handed_out_once(
    a: &mut EventBuffer,
    entries: Vec<EventLogEntry>,
    b: &mut EventBuffer,
    r: Vec<EventLogEntry>,
)
    requires
        call_ensures(EventBuffer::push_all, (a, entries), ()),
        call_ensures(EventBuffer::drain, (b,), r),
    ensures
        ({
            let all = old(a).entries@ + entries@;
            &&& all.len() <= 100 ==> final(a).entries@ == all
            &&& all.len() > 100 ==> final(a).entries@ == all.skip(all.len() - 100)
        }),
        r@ == old(b).entries@ && final(b).entries@.len() == 0,
{
    newest_is_the_end(old(a).entries@ + entries@, 100);
}

/// A channel that is read for the first time delivers nothing but its newest position; one that is
/// known is read on from there. Recording a position is for that channel alone.
pub proof fn channel_is_read_on_from_its_position(
    cursors: &ChannelCursors,
    channel: &str,
    scan: ChannelScan,
    after: &mut ChannelCursors,
    cursor: u32,
    other: Seq<char>,
)
    requires
        call_ensures(ChannelCursors::begin, (cursors, channel), scan),
        call_ensures(ChannelCursors::record, (after, channel, cursor), ()),
        other != channel@,
    ensures
        !cursors@.contains_key(channel@) ==> scan@.reseed_only,
        cursors@.contains_key(channel@) ==> !scan@.reseed_only && scan@.last_record
            == cursors@[channel@],
        scan@.entries.len() == 0 && !scan@.done && scan@.newest is None,
        final(after)@.contains_key(channel@) && final(after)@[channel@] == cursor,
        old(after)@.contains_key(other) ==> final(after)@[other] == old(after)@[other],
        final(after)@.contains_key(other) <==> old(after)@.contains_key(other),
{
}

/// The position after a poll is that of the newest record seen, or stays; a buffer grows where
/// more is needed, up to its cap; and what was read newest first is handed on oldest first.
pub proof fn position_after_a_poll_is_of_the_newest(
    scan: &ChannelScan,
    at: u32,
    needed: usize,
    have: usize,
    grown: Option<usize>,
    entries: Vec<EventLogEntry>,
    turned: Vec<EventLogEntry>,
    i: int,
)
    requires
        call_ensures(ChannelScan::cursor, (scan,), at),
        call_ensures(larger_buffer, (needed, have), grown),
        call_ensures(oldest_first, (entries,), turned),
    ensures
        scan@.newest matches Some(n) ==> at == n,
        scan@.newest is None ==> at == scan@.last_record,
        grown is Some <==> have < needed && needed <= 1_048_576,
        grown is Some ==> grown == Some(needed),
        turned@.len() == entries@.len(),
        0 <= i < entries@.len() ==> turned@[i] == entries@[entries@.len() - 1 - i],
{
}

} // verus!
