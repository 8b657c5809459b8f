//! What the log watcher remembers about each file: how far it has been read, and which
//! error and warning lines it has already reported.

use crate::keyed::{
    distinct, kept, kept_map, lemma_table_contains, lemma_table_kept, lemma_table_len,
    lemma_table_lookup, lemma_table_push, lemma_table_remove, lemma_table_update, table,
};
use crate::paths::{path_identity, same_path, ComponentModel};
use crate::text::{
    ascii_digit, chars_of, is_ascii_digit, keep_nonempty, split_by, split_on, unicode_alphanumeric,
    unicode_lowercase, views, words_are_the_pieces_that_hold_something, words_by,
};
use std::collections::hash_map::DefaultHasher;
use std::hash::Hasher;
use vstd::prelude::*;
use vstd::std_specs::hash::*;
use vstd::string::*;
use vstd::utf8::*;

verus! {

/// How long a reported line stays known for its file, in nanoseconds of a monotonic clock.
/// It matches the analysis heartbeat, so a line that is written again and again is looked
/// at once in that time.
pub const SEEN_TTL: u64 = 6 * 3600 * 1_000_000_000;

/// Files remembered at once; the least recently written one is forgotten first.
pub const MAX_FILES: usize = 512;

/// Distinct reported lines remembered per file.
pub const MAX_LINES_PER_FILE: usize = 256;

/// Where the next read of a file starts.
#[derive(Debug, Clone, Copy, PartialEq, Eq, Structural)]
pub struct ReadStart {
    pub offset: u64,
    /// The offset may fall inside a line, whose partial head must be skipped.
    pub mid_line: bool,
}

/// One file that the watcher remembers.
pub struct FileMemory {
    pub path: String,
    /// Byte offset up to which the file has been read.
    pub read_to: u64,
    /// When the file was last looked at.
    pub touched: u64,
    /// The signature of each reported line, and when it was reported.
    pub seen: Vec<(u64, u64)>,
}

/// The files that the watcher remembers.
pub struct LogMemory {
    pub files: Vec<FileMemory>,
}

/// What is remembered of one file.
pub struct FileModel {
    pub read_to: u64,
    pub touched: u64,
    pub seen: Map<u64, u64>,
}

/// What a file is remembered under.
pub type FileId = Seq<ComponentModel>;

/// What is remembered of one file.
pub open spec fn file_model(f: FileMemory) -> FileModel {
    FileModel { read_to: f.read_to, touched: f.touched, seen: table(f.seen@) }
}

/// The files and what is remembered of each.
pub open spec fn file_pairs(files: Seq<FileMemory>) -> Seq<(FileId, FileModel)> {
    files.map_values(|f: FileMemory| (path_identity(f.path@), file_model(f)))
}

impl View for LogMemory {
    type V = Map<FileId, FileModel>;

    open spec fn view(&self) -> Map<FileId, FileModel> {
        table(file_pairs(self.files@))
    }
}

impl LogMemory {
    /// No file and no line is remembered twice, and never more of them than the caps.
    pub open spec fn wf(self) -> bool {
        &&& distinct(file_pairs(self.files@))
        &&& self.files@.len() <= MAX_FILES
        &&& forall|i: int|
            0 <= i < self.files@.len() ==> distinct((#[trigger] self.files@[i]).seen@)
                && self.files@[i].seen@.len() <= MAX_LINES_PER_FILE
    }
}

// ── Reading on ────────────────────────────────────────────────────────────────

/// The last `max` bytes of a file of `len` bytes.
pub open spec fn tail_of(len: u64, max: u64) -> ReadStart {
    ReadStart {
        offset: if len > max {
            (len - max) as u64
        } else {
            0
        },
        mid_line: len > max,
    }
}

/// Where to read a file of `len` bytes, at most `max` of them, by how far it was read. A
/// file not read yet, one that shrank and one that grew by more than `max` are read from
/// their end; another from where the last read stopped; none where nothing is new.
pub open spec fn start_of(read_to: Option<u64>, len: u64, max: u64) -> Option<ReadStart> {
    match read_to {
        Some(at) if len >= at => if len == at {
            None
        } else if len - at > max {
            Some(tail_of(len, max))
        } else {
            Some(ReadStart { offset: at, mid_line: false })
        },
        _ => if len > 0 {
            Some(tail_of(len, max))
        } else {
            None
        },
    }
}

/// A file that holds nothing yet.
pub open spec fn new_file(now: u64) -> FileModel {
    FileModel { read_to: 0, touched: now, seen: Map::empty() }
}

/// Whether no file was looked at longer ago.
pub open spec fn least_recent(m: Map<FileId, FileModel>, id: FileId) -> bool {
    m.contains_key(id) && forall|k: FileId| #[trigger]
        m.contains_key(k) ==> m[id].touched <= m[k].touched
}

/// Whether `after` is `before` with the file looked at now: a new file is remembered, for
/// which the least recent one is forgotten where the memory is full.
pub open spec fn looked_at(
    before: Map<FileId, FileModel>,
    id: FileId,
    now: u64,
    after: Map<FileId, FileModel>,
) -> bool {
    if before.contains_key(id) {
        after == before.insert(
            id,
            FileModel { read_to: before[id].read_to, touched: now, seen: before[id].seen },
        )
    } else if before.dom().len() >= MAX_FILES {
        exists|out: FileId| #[trigger]
            least_recent(before, out) && after == before.remove(out).insert(id, new_file(now))
    } else {
        after == before.insert(id, new_file(now))
    }
}

/// What is remembered once it has been asked where to read a file of `len` bytes: a file that
/// shrank is read from its start again.
pub open spec fn started(
    before: Map<FileId, FileModel>,
    id: FileId,
    len: u64,
    now: u64,
) -> Map<FileId, FileModel> {
    if before.contains_key(id) {
        let file = before[id];
        before.insert(
            id,
            FileModel {
                read_to: if len < file.read_to {
                    0
                } else {
                    file.read_to
                },
                touched: now,
                seen: file.seen,
            },
        )
    } else {
        before
    }
}

/// Whether `after` is `before` with the file read up to a byte.
pub open spec fn marked(
    before: Map<FileId, FileModel>,
    id: FileId,
    to: u64,
    now: u64,
    after: Map<FileId, FileModel>,
) -> bool {
    exists|mid: Map<FileId, FileModel>| #[trigger]
        looked_at(before, id, now, mid) && after == mid.insert(
            id,
            FileModel { read_to: to, touched: now, seen: mid[id].seen },
        )
}

// ── Lines ─────────────────────────────────────────────────────────────────────

/// The part of a word that counts: a word with a digit counts as a number, any other in
/// lower case.
pub open spec fn word_identity(word: Seq<char>) -> Seq<char> {
    if exists|i: int| 0 <= i < word.len() && ascii_digit(#[trigger] word[i]) {
        "#"@
    } else {
        unicode_lowercase(word)
    }
}

/// What is hashed for a sequence of words: the bytes of each, and an end mark.
pub open spec fn word_writes(words: Seq<Seq<char>>) -> Seq<Seq<u8>>
    decreases words.len(),
{
    if words.len() == 0 {
        Seq::empty()
    } else {
        word_writes(words.drop_last()).push(encode_utf8(word_identity(words.last()))).push(
            seq![0xffu8],
        )
    }
}

/// The words of a line, between characters that are neither letters nor digits.
pub open spec fn line_words(line: Seq<char>) -> Seq<Seq<char>> {
    words_by(line, |c: char| !unicode_alphanumeric(c))
}

/// A line's identity without its volatile parts: case, punctuation, spacing, and every word
/// with a digit.
pub open spec fn signature_of(line: Seq<char>) -> u64 {
    DefaultHasher::spec_finish(word_writes(line_words(line)))
}

/// Whether a report at `at` still counts at `now`.
pub open spec fn recent(at: u64, now: u64) -> bool {
    now - at < SEEN_TTL
}

/// Whether no line was reported longer ago.
pub open spec fn earliest(seen: Map<u64, u64>, line: u64) -> bool {
    seen.contains_key(line) && forall|k: u64| #[trigger]
        seen.contains_key(k) ==> seen[line] <= seen[k]
}

/// Whether `after` is `before` with room for a line: where the cap is reached, reports that
/// no longer count are forgotten, and the earliest one where that is not enough.
pub open spec fn room_made(
    before: Map<u64, u64>,
    line: u64,
    now: u64,
    after: Map<u64, u64>,
) -> bool {
    let counting = kept_map(before, |at: u64| recent(at, now));
    if before.contains_key(line) || before.dom().len() < MAX_LINES_PER_FILE {
        after == before
    } else if counting.dom().len() < MAX_LINES_PER_FILE {
        after == counting
    } else {
        exists|out: u64| #[trigger] earliest(counting, out) && after == counting.remove(out)
    }
}

/// Whether a line counts as new for a file of which this is remembered.
pub open spec fn is_first(file: FileModel, line: u64, now: u64) -> bool {
    !(file.seen.contains_key(line) && recent(file.seen[line], now))
}

/// Whether `after` is `mid` with the line reported now.
pub open spec fn reported(
    mid: Map<FileId, FileModel>,
    id: FileId,
    line: u64,
    now: u64,
    after: Map<FileId, FileModel>,
) -> bool {
    exists|room: Map<u64, u64>| #[trigger]
        room_made(mid[id].seen, line, now, room) && after == mid.insert(
            id,
            FileModel {
                read_to: mid[id].read_to,
                touched: mid[id].touched,
                seen: room.insert(line, now),
            },
        )
}

/// Whether a sighting of a line answers `first` and leaves `after` remembered.
pub open spec fn sighted(
    before: Map<FileId, FileModel>,
    id: FileId,
    line: u64,
    now: u64,
    first: bool,
    after: Map<FileId, FileModel>,
) -> bool {
    exists|mid: Map<FileId, FileModel>| #[trigger]
        looked_at(before, id, now, mid) && first == is_first(mid[id], line, now) && (if first {
            reported(mid, id, line, now, after)
        } else {
            after == mid
        })
}

/// A line that was reported is not reported again for its file until its time is over.
pub proof fn reported_line_is_held_back(
    before: Map<FileId, FileModel>,
    after: Map<FileId, FileModel>,
    later: Map<FileId, FileModel>,
    id: FileId,
    line: u64,
    now: u64,
    then_now: u64,
    again: bool,
)
    requires
        sighted(before, id, line, now, true, after),
        sighted(after, id, line, then_now, again, later),
        recent(now, then_now),
    ensures
        !again,
{
}

/// Once its time is over, a line is reported again.
pub proof fn reported_line_comes_back(
    before: Map<FileId, FileModel>,
    after: Map<FileId, FileModel>,
    later: Map<FileId, FileModel>,
    id: FileId,
    line: u64,
    now: u64,
    then_now: u64,
    again: bool,
)
    requires
        sighted(before, id, line, now, true, after),
        sighted(after, id, line, then_now, again, later),
        !recent(now, then_now),
    ensures
        again,
{
}

/// A line that was reported stays reported while other lines of its file are sighted, unless
/// it is forgotten to make room.
pub proof fn other_lines_leave_a_report_in_place(
    before: Map<FileId, FileModel>,
    after: Map<FileId, FileModel>,
    id: FileId,
    line: u64,
    other: u64,
    now: u64,
    first: bool,
)
    requires
        sighted(before, id, other, now, first, after),
        other != line,
        before.contains_key(id),
        !is_first(before[id], line, now),
        kept_map(before[id].seen, |at: u64| recent(at, now)).dom().len() < MAX_LINES_PER_FILE,
    ensures
        after.contains_key(id),
        after[id].seen.contains_key(line),
        after[id].seen[line] == before[id].seen[line],
{
    let mid = choose|mid: Map<FileId, FileModel>| #[trigger]
        looked_at(before, id, now, mid) && first == is_first(mid[id], other, now) && (if first {
            reported(mid, id, other, now, after)
        } else {
            after == mid
        });
    assert(mid[id].seen == before[id].seen);
    let counting = kept_map(before[id].seen, |at: u64| recent(at, now));
    assert(counting.contains_key(line));
}

/// What is remembered of another file stays as it is, unless it is forgotten to make room.
pub proof fn memory_is_per_file(
    before: Map<FileId, FileModel>,
    after: Map<FileId, FileModel>,
    id: FileId,
    other: FileId,
    line: u64,
    now: u64,
    first: bool,
)
    requires
        sighted(before, id, line, now, first, after),
        other != id,
        after.contains_key(other),
    ensures
        before.contains_key(other),
        after[other] == before[other],
{
}

// ── All that happens to the memory ────────────────────────────────────────────

/// Something that happens to the memory.
pub enum MemoryEvent {
    /// It was asked where to read a file of so many bytes.
    Started { id: FileId, len: u64, now: u64 },
    /// A file was read up to a byte.
    Marked { id: FileId, to: u64, now: u64 },
    /// A line was sighted; it was reported where it counted as new.
    Sighted { id: FileId, line: u64, now: u64, first: bool },
}

impl MemoryEvent {
    /// When it happened.
    pub open spec fn now(self) -> u64 {
        match self {
            MemoryEvent::Started { now, .. } => now,
            MemoryEvent::Marked { now, .. } => now,
            MemoryEvent::Sighted { now, .. } => now,
        }
    }

    /// Whether it reported a line of a file.
    pub open spec fn reports(self, of: FileId, what: u64) -> bool {
        match self {
            MemoryEvent::Sighted { id, line, first, .. } => first && id == of && line == what,
            _ => false,
        }
    }
}

/// Whether something that happens leaves `after` remembered.
pub open spec fn happened(
    before: Map<FileId, FileModel>,
    event: MemoryEvent,
    after: Map<FileId, FileModel>,
) -> bool {
    match event {
        MemoryEvent::Started { id, len, now } => after == started(before, id, len, now),
        MemoryEvent::Marked { id, to, now } => marked(before, id, to, now, after),
        MemoryEvent::Sighted { id, line, now, first } => sighted(
            before,
            id,
            line,
            now,
            first,
            after,
        ),
    }
}

/// Whether there is room for a file.
pub open spec fn room_for_file(m: Map<FileId, FileModel>, id: FileId) -> bool {
    m.contains_key(id) || m.dom().len() < MAX_FILES
}

/// Whether there is room for what happens, so that nothing that counts is forgotten for it.
pub open spec fn room_for(m: Map<FileId, FileModel>, event: MemoryEvent) -> bool {
    match event {
        MemoryEvent::Started { .. } => true,
        MemoryEvent::Marked { id, .. } => room_for_file(m, id),
        MemoryEvent::Sighted { id, now, .. } => room_for_file(m, id) && (m.contains_key(id)
            ==> kept_map(m[id].seen, |at: u64| recent(at, now)).dom().len() < MAX_LINES_PER_FILE),
    }
}

/// Whether a memory is what an empty one becomes by some events, with room for each of them.
pub open spec fn remembers(events: Seq<MemoryEvent>, m: Map<FileId, FileModel>) -> bool
    decreases events.len(),
{
    if events.len() == 0 {
        m == Map::<FileId, FileModel>::empty()
    } else {
        exists|before: Map<FileId, FileModel>| #[trigger]
            happened(before, events.last(), m) && room_for(before, events.last()) && remembers(
                events.drop_last(),
                before,
            )
    }
}

/// Whether events come in the order of their times.
pub open spec fn in_order(events: Seq<MemoryEvent>) -> bool {
    forall|i: int, j: int|
        0 <= i <= j < events.len() ==> (#[trigger] events[i]).now() <= (
        #[trigger] events[j]).now()
}

/// Whether a line of a file was reported at a time.
pub open spec fn was_reported(
    events: Seq<MemoryEvent>,
    id: FileId,
    line: u64,
    at: u64,
) -> bool {
    exists|i: int|
        0 <= i < events.len() && (#[trigger] events[i]).reports(id, line) && events[i].now() == at
}

/// Whether a memory holds the reports that still count at a time, each with the time of the
/// last one, and nothing that is no report.
spec fn holds_reports(events: Seq<MemoryEvent>, m: Map<FileId, FileModel>, now: u64) -> bool {
    &&& forall|id: FileId, line: u64|
        m.contains_key(id) && #[trigger] m[id].seen.contains_key(line) ==> was_reported(
            events,
            id,
            line,
            m[id].seen[line],
        )
    &&& forall|id: FileId, line: u64, at: u64| #[trigger]
        was_reported(events, id, line, at) && recent(at, now) ==> m.contains_key(id)
            && m[id].seen.contains_key(line) && m[id].seen[line] >= at
}

/// Looking at a file changes no report, where there is room for it.
proof fn lemma_look_keeps(
    events: Seq<MemoryEvent>,
    before: Map<FileId, FileModel>,
    id: FileId,
    now: u64,
    mid: Map<FileId, FileModel>,
)
    requires
        holds_reports(events, before, now),
        room_for_file(before, id),
        looked_at(before, id, now, mid),
    ensures
        holds_reports(events, mid, now),
        mid.contains_key(id),
{
    assert forall|k: FileId, line: u64|
        mid.contains_key(k) && #[trigger] mid[k].seen.contains_key(line) implies was_reported(
        events,
        k,
        line,
        mid[k].seen[line],
    ) by {
        assert(before.contains_key(k) && before[k].seen.contains_key(line));
    }
}

proof fn lemma_reported_before(
    events: Seq<MemoryEvent>,
    id: FileId,
    line: u64,
    at: u64,
)
    requires
        events.len() > 0,
    ensures
        was_reported(events, id, line, at) <==> was_reported(events.drop_last(), id, line, at) || (
        events.last().reports(id, line) && events.last().now() == at),
{
    let before = events.drop_last();
    if was_reported(events, id, line, at) {
        let i = choose|i: int|
            0 <= i < events.len() && (#[trigger] events[i]).reports(id, line) && events[i].now()
                == at;
        if i < before.len() {
            assert(before[i] == events[i]);
        }
    }
    if was_reported(before, id, line, at) {
        let i = choose|i: int|
            0 <= i < before.len() && (#[trigger] before[i]).reports(id, line) && before[i].now()
                == at;
        assert(events[i] == before[i]);
    }
}

/// Reporting a line adds its report, and drops none that still counts where there is room.
proof fn lemma_report_adds(
    events: Seq<MemoryEvent>,
    mid: Map<FileId, FileModel>,
    id: FileId,
    line: u64,
    now: u64,
    after: Map<FileId, FileModel>,
)
    requires
        holds_reports(events, mid, now),
        mid.contains_key(id),
        reported(mid, id, line, now, after),
        kept_map(mid[id].seen, |at: u64| recent(at, now)).dom().len() < MAX_LINES_PER_FILE,
    ensures
        forall|k: FileId, l: u64|
            after.contains_key(k) && #[trigger] after[k].seen.contains_key(l) ==> was_reported(
                events,
                k,
                l,
                after[k].seen[l],
            ) || (k == id && l == line && after[k].seen[l] == now),
        after.contains_key(id) && after[id].seen.contains_key(line) && after[id].seen[line] == now,
        forall|k: FileId, l: u64, at: u64|
            #![trigger was_reported(events, k, l, at)]
            was_reported(events, k, l, at) && recent(at, now) ==> after.contains_key(k)
                && after[k].seen.contains_key(l) && ((k == id && l == line)
                || after[k].seen[l] >= at),
{
    let seen = mid[id].seen;
    let counting = kept_map(seen, |at: u64| recent(at, now));
    let room = choose|room: Map<u64, u64>| #[trigger]
        room_made(seen, line, now, room) && after == mid.insert(
            id,
            FileModel {
                read_to: mid[id].read_to,
                touched: mid[id].touched,
                seen: room.insert(line, now),
            },
        );
    assert(room == seen || room == counting);
    assert forall|k: FileId, l: u64|
        after.contains_key(k) && #[trigger] after[k].seen.contains_key(l) implies was_reported(
        events,
        k,
        l,
        after[k].seen[l],
    ) || (k == id && l == line && after[k].seen[l] == now) by {
        if !(k == id && l == line) {
            assert(mid.contains_key(k) && mid[k].seen.contains_key(l));
            assert(after[k].seen[l] == mid[k].seen[l]);
        }
    }
    assert forall|k: FileId, l: u64, at: u64|
        #![trigger was_reported(events, k, l, at)]
        was_reported(events, k, l, at) && recent(at, now) implies after.contains_key(k)
        && after[k].seen.contains_key(l) && ((k == id && l == line)
        || after[k].seen[l] >= at) by {
        if k == id && l != line {
            assert(recent(seen[l], now));
            assert(counting.contains_key(l));
        }
    }
}

proof fn lemma_remembers(events: Seq<MemoryEvent>, m: Map<FileId, FileModel>, now: u64)
    requires
        remembers(events, m),
        in_order(events),
        events.len() > 0 ==> events.last().now() <= now,
    ensures
        holds_reports(events, m, now),
    decreases events.len(),
{
    if events.len() == 0 {
        return ;
    }
    let old_events = events.drop_last();
    let event = events.last();
    let t = event.now();
    let before = choose|before: Map<FileId, FileModel>| #[trigger]
        happened(before, event, m) && room_for(before, event) && remembers(old_events, before);
    assert(in_order(old_events)) by {
        assert forall|i: int, j: int| 0 <= i <= j < old_events.len() implies (
        #[trigger] old_events[i]).now() <= (#[trigger] old_events[j]).now() by {
            assert(events[i].now() <= events[j].now());
        }
    }
    if old_events.len() > 0 {
        assert(events[old_events.len() - 1].now() <= events[old_events.len() as int].now());
    }
    lemma_remembers(old_events, before, t);
    assert forall|id: FileId, line: u64, at: u64| #[trigger] was_reported(events, id, line, at)
        == (was_reported(old_events, id, line, at) || (event.reports(id, line) && t == at)) by {
        lemma_reported_before(events, id, line, at);
    }
    match event {
        MemoryEvent::Started { .. } => {
            assert(holds_reports(old_events, m, t));
        },
        MemoryEvent::Marked { id, to, now: _ } => {
            let mid = choose|mid: Map<FileId, FileModel>| #[trigger]
                looked_at(before, id, t, mid) && m == mid.insert(
                    id,
                    FileModel { read_to: to, touched: t, seen: mid[id].seen },
                );
            lemma_look_keeps(old_events, before, id, t, mid);
            assert(holds_reports(old_events, m, t));
        },
        MemoryEvent::Sighted { id, line, now: _, first } => {
            let mid = choose|mid: Map<FileId, FileModel>| #[trigger]
                looked_at(before, id, t, mid) && first == is_first(mid[id], line, t) && (if first {
                    reported(mid, id, line, t, m)
                } else {
                    m == mid
                });
            lemma_look_keeps(old_events, before, id, t, mid);
            if first {
                if before.contains_key(id) {
                    assert(mid[id].seen == before[id].seen);
                } else {
                    let counting = kept_map(mid[id].seen, |at: u64| recent(at, t));
                    assert(mid[id] == new_file(t));
                    assert(counting.dom() =~= Set::<u64>::empty());
                }
                lemma_report_adds(old_events, mid, id, line, t, m);
            }
        },
    }
}

/// A line counts as new for its file exactly where it was not reported for that file within
/// its time, however often it and other lines were sighted and files were read, as long as
/// there was room for what happened.
pub proof fn line_is_reported_once_in_its_time(
    events: Seq<MemoryEvent>,
    before: Map<FileId, FileModel>,
    id: FileId,
    line: u64,
    now: u64,
    first: bool,
    after: Map<FileId, FileModel>,
)
    requires
        remembers(events, before),
        in_order(events),
        events.len() > 0 ==> events.last().now() <= now,
        sighted(before, id, line, now, first, after),
    ensures
        first <==> !(exists|at: u64| #[trigger]
            was_reported(events, id, line, at) && recent(at, now)),
{
    lemma_remembers(events, before, now);
    let mid = choose|mid: Map<FileId, FileModel>| #[trigger]
        looked_at(before, id, now, mid) && first == is_first(mid[id], line, now) && (if first {
            reported(mid, id, line, now, after)
        } else {
            after == mid
        });
    if before.contains_key(id) {
        assert(mid[id].seen == before[id].seen);
    } else {
        assert(mid[id] == new_file(now));
    }
    if !first {
        assert(before[id].seen.contains_key(line));
        assert(was_reported(events, id, line, before[id].seen[line]));
    }
}

fn is_no_word_char(c: char) -> (r: bool)
    ensures
        r == !unicode_alphanumeric(c),
{
    !c.is_alphanumeric()
}

fn has_digit(word: &str) -> (r: bool)
    ensures
        r == exists|i: int| 0 <= i < word@.len() && ascii_digit(#[trigger] word@[i]),
{
    let v = chars_of(word);
    let mut i: usize = 0;
    while i < v.len()
        invariant
            i <= v@.len(),
            v@ == word@,
            forall|k: int| 0 <= k < i ==> !ascii_digit(#[trigger] v@[k]),
        decreases v@.len() - i,
    {
        if is_ascii_digit(v[i]) {
            assert(ascii_digit(word@[i as int]));
            return true;
        }
        i += 1;
    }
    false
}

/// A line's identity without its volatile parts, so that the same message written at
/// another moment matches.
pub fn signature(line: &str) -> (r: u64)
    ensures
        r == signature_of(line@),
{
    let ghost sep = |c: char| !unicode_alphanumeric(c);
    let pieces = split_by(line, is_no_word_char, Ghost(sep));
    let words = keep_nonempty(pieces);
    let ghost all = line_words(line@);
    let mut hasher = DefaultHasher::new();
    let mut i: usize = 0;
    assert(all.take(0) =~= Seq::<Seq<char>>::empty());
    while i < words.len()
        invariant
            i <= words@.len(),
            views(words@) == all,
            hasher@ == word_writes(all.take(i as int)),
        decreases words@.len() - i,
    {
        let ghost next = all.take(i + 1);
        assert(next.drop_last() =~= all.take(i as int));
        assert(next.last() == words@[i as int]@);
        let word = words[i].as_str();
        if has_digit(word) {
            hasher.write("#".as_bytes());
        } else {
            let lower = word.to_lowercase();
            hasher.write(lower.as_str().as_bytes());
        }
        let mark: [u8; 1] = [0xff];
        hasher.write(&mark);
        assert(mark@ =~= seq![0xffu8]);
        i += 1;
    }
    assert(all.take(all.len() as int) =~= all);
    hasher.finish()
}

// ── The memory ────────────────────────────────────────────────────────────────

proof fn lemma_pairs_update(files: Seq<FileMemory>, i: int, f: FileMemory)
    requires
        0 <= i < files.len(),
        f.path@ == files[i].path@,
    ensures
        file_pairs(files.update(i, f)) == file_pairs(files).update(
            i,
            (file_pairs(files)[i].0, file_model(f)),
        ),
{
    assert(file_pairs(files.update(i, f)) =~= file_pairs(files).update(
        i,
        (file_pairs(files)[i].0, file_model(f)),
    ));
}

impl LogMemory {
    /// Nothing is remembered yet.
    pub fn new() -> (r: LogMemory)
        ensures
            r.wf(),
            r@ == Map::<FileId, FileModel>::empty(),
    {
        LogMemory { files: Vec::new() }
    }

    fn find(&self, path: &str) -> (r: Option<usize>)
        ensures
            match r {
                Some(i) => i < self.files@.len() && file_pairs(self.files@)[i as int].0
                    == path_identity(path@),
                None => !self@.contains_key(path_identity(path@)),
            },
    {
        let ghost pairs = file_pairs(self.files@);
        let ghost id = path_identity(path@);
        let mut i: usize = 0;
        while i < self.files.len()
            invariant
                i <= self.files@.len(),
                pairs == file_pairs(self.files@),
                id == path_identity(path@),
                forall|k: int| 0 <= k < i ==> (#[trigger] pairs[k]).0 != id,
            decreases self.files@.len() - i,
        {
            if same_path(self.files[i].path.as_str(), path) {
                return Some(i);
            }
            assert(pairs[i as int].0 != id);
            i += 1;
        }
        proof {
            lemma_table_contains(pairs, id);
        }
        None
    }

    /// Where to read a file that is now `len` bytes long, reading at most `max` bytes.
    /// `None` when nothing was added since the last read.
    pub fn read_start(&mut self, path: &str, len: u64, max: u64, now: u64) -> (r: Option<
        ReadStart,
    >)
        requires
            old(self).wf(),
        ensures
            final(self).wf(),
            ({
                let id = path_identity(path@);
                &&& final(self)@ == started(old(self)@, id, len, now)
                &&& r == (if old(self)@.contains_key(id) {
                    start_of(Some(old(self)@[id].read_to), len, max)
                } else {
                    start_of(None, len, max)
                })
            }),
    {
        let tail = ReadStart {
            offset: if len > max {
                len - max
            } else {
                0
            },
            mid_line: len > max,
        };
        let start = if len > 0 {
            Some(tail)
        } else {
            None
        };
        let i: usize = match self.find(path) {
            Some(i) => i,
            None => return start,
        };
        let ghost files = self.files@;
        let ghost pairs = file_pairs(files);
        proof {
            lemma_table_lookup(pairs, i as int);
            assert(pairs[i as int].1 == file_model(files[i as int]));
        }
        let read_to: u64 = self.files[i].read_to;
        let ghost kept_to: u64 = if len < read_to {
            0
        } else {
            read_to
        };
        self.files[i].touched = now;
        if len < read_to {
            self.files[i].read_to = 0;
        }
        proof {
            let f = self.files@[i as int];
            assert(self.files@ =~= files.update(i as int, f));
            lemma_pairs_update(files, i as int, f);
            lemma_table_update(pairs, i as int, file_model(f));
        }
        if len < read_to {
            start
        } else if len == read_to {
            None
        } else if len - read_to > max {
            Some(tail)
        } else {
            Some(ReadStart { offset: read_to, mid_line: false })
        }
    }

    fn oldest_file(&self) -> (r: usize)
        requires
            self.files@.len() > 0,
        ensures
            r < self.files@.len(),
            forall|k: int|
                0 <= k < self.files@.len() ==> self.files@[r as int].touched <= (
                #[trigger] self.files@[k]).touched,
    {
        let mut best: usize = 0;
        let mut i: usize = 1;
        while i < self.files.len()
            invariant
                1 <= i <= self.files@.len(),
                best < i,
                forall|k: int|
                    0 <= k < i ==> self.files@[best as int].touched <= (
                    #[trigger] self.files@[k]).touched,
            decreases self.files@.len() - i,
        {
            if self.files[i].touched < self.files[best].touched {
                best = i;
            }
            i += 1;
        }
        best
    }

    /// The position of a file that is looked at now, once it is remembered.
    fn file(&mut self, path: &str, now: u64) -> (i: usize)
        requires
            old(self).wf(),
        ensures
            final(self).wf(),
            i < final(self).files@.len(),
            file_pairs(final(self).files@)[i as int].0 == path_identity(path@),
            looked_at(old(self)@, path_identity(path@), now, final(self)@),
    {
        let ghost id = path_identity(path@);
        let ghost before = self@;
        if let Some(i) = self.find(path) {
            let ghost files = self.files@;
            let ghost pairs = file_pairs(files);
            self.files[i].touched = now;
            proof {
                lemma_table_lookup(pairs, i as int);
                let f = self.files@[i as int];
                assert(self.files@ =~= files.update(i as int, f));
                lemma_pairs_update(files, i as int, f);
                lemma_table_update(pairs, i as int, file_model(f));
            }
            return i;
        }
        proof {
            lemma_table_len(file_pairs(self.files@));
        }
        if self.files.len() >= MAX_FILES {
            let out: usize = self.oldest_file();
            let ghost files = self.files@;
            let ghost pairs = file_pairs(files);
            let ghost gone = pairs[out as int].0;
            proof {
                assert forall|k: FileId| #[trigger] before.contains_key(k) implies before[gone].touched
                    <= before[k].touched by {
                    lemma_table_contains(pairs, k);
                    let j = choose|j: int| 0 <= j < pairs.len() && (#[trigger] pairs[j]).0 == k;
                    lemma_table_lookup(pairs, j);
                    lemma_table_lookup(pairs, out as int);
                    assert(files[out as int].touched <= files[j].touched);
                }
                lemma_table_lookup(pairs, out as int);
                assert(least_recent(before, gone));
                lemma_table_remove(pairs, out as int);
            }
            let _ = self.files.remove(out);
            proof {
                assert(file_pairs(self.files@) =~= pairs.remove(out as int));
                assert forall|k: int| 0 <= k < self.files@.len() implies distinct(
                    (#[trigger] self.files@[k]).seen@,
                ) && self.files@[k].seen@.len() <= MAX_LINES_PER_FILE by {
                    if k < out {
                        assert(self.files@[k] == files[k]);
                    } else {
                        assert(self.files@[k] == files[k + 1]);
                    }
                }
            }
        }
        let ghost files = self.files@;
        let ghost pairs = file_pairs(files);
        let fresh = FileMemory { path: path.to_owned(), read_to: 0, touched: now, seen: Vec::new() };
        proof {
            assert(file_model(fresh) == new_file(now));
            lemma_table_push(pairs, id, file_model(fresh));
            assert(file_pairs(files.push(fresh)) =~= pairs.push((id, file_model(fresh))));
        }
        self.files.push(fresh);
        self.files.len() - 1
    }

    /// Record that the file has been read up to byte `to`.
    pub fn mark_read(&mut self, path: &str, to: u64, now: u64)
        requires
            old(self).wf(),
        ensures
            final(self).wf(),
            marked(old(self)@, path_identity(path@), to, now, final(self)@),
    {
        let ghost id = path_identity(path@);
        let i: usize = self.file(path, now);
        let ghost mid = self@;
        let ghost files = self.files@;
        let ghost pairs = file_pairs(files);
        self.files[i].read_to = to;
        proof {
            lemma_table_lookup(pairs, i as int);
            let f = self.files@[i as int];
            assert(self.files@ =~= files.update(i as int, f));
            lemma_pairs_update(files, i as int, f);
            lemma_table_update(pairs, i as int, file_model(f));
            assert(looked_at(old(self)@, id, now, mid));
        }
    }

    /// Record a line of interest: `true` the first time it is seen within its time, `false`
    /// for a repeat, so that a line is reported once and not on every write.
    pub fn first_sighting(&mut self, path: &str, line: &str, now: u64) -> (r: bool)
        requires
            old(self).wf(),
        ensures
            final(self).wf(),
            sighted(
                old(self)@,
                path_identity(path@),
                signature_of(line@),
                now,
                r,
                final(self)@,
            ),
    {
        let ghost id = path_identity(path@);
        let mark: u64 = signature(line);
        let i: usize = self.file(path, now);
        let ghost mid = self@;
        let ghost files = self.files@;
        let ghost pairs = file_pairs(files);
        let ghost seen = table(files[i as int].seen@);
        proof {
            lemma_table_lookup(pairs, i as int);
            assert(mid[id].seen == seen);
            assert(looked_at(old(self)@, id, now, mid));
        }
        let mut lines: Vec<(u64, u64)> = Vec::new();
        std::mem::swap(&mut lines, &mut self.files[i].seen);
        let (first, lines) = note_line(lines, mark, now);
        self.files[i].seen = lines;
        proof {
            let f = self.files@[i as int];
            assert(self.files@ =~= files.update(i as int, f));
            lemma_pairs_update(files, i as int, f);
            lemma_table_update(pairs, i as int, file_model(f));
            if !first {
                assert(file_model(f) == mid[id]);
                assert(self@ =~= mid);
            } else {
                let room = choose|room: Map<u64, u64>| #[trigger]
                    room_made(seen, mark, now, room) && table(lines@) == room.insert(mark, now);
                assert(room_made(mid[id].seen, mark, now, room));
                assert(reported(mid, id, mark, now, self@));
            }
        }
        first
    }

    /// How many files are remembered.
    pub fn file_count(&self) -> (r: usize)
        requires
            self.wf(),
        ensures
            r == self@.dom().len(),
            r <= MAX_FILES,
    {
        proof {
            lemma_table_len(file_pairs(self.files@));
        }
        self.files.len()
    }

    /// How many lines of a file are remembered, if the file is.
    pub fn line_count(&self, path: &str) -> (r: Option<usize>)
        requires
            self.wf(),
        ensures
            match r {
                Some(n) => self@.contains_key(path_identity(path@)) && n
                    == self@[path_identity(path@)].seen.dom().len() && n <= MAX_LINES_PER_FILE,
                None => !self@.contains_key(path_identity(path@)),
            },
    {
        match self.find(path) {
            Some(i) => {
                proof {
                    lemma_table_lookup(file_pairs(self.files@), i as int);
                    lemma_table_len(self.files@[i as int].seen@);
                }
                Some(self.files[i].seen.len())
            },
            None => None,
        }
    }
}

fn find_line(lines: &Vec<(u64, u64)>, mark: u64) -> (r: Option<usize>)
    ensures
        match r {
            Some(i) => i < lines@.len() && lines@[i as int].0 == mark,
            None => !table(lines@).contains_key(mark),
        },
{
    let mut i: usize = 0;
    while i < lines.len()
        invariant
            i <= lines@.len(),
            forall|k: int| 0 <= k < i ==> (#[trigger] lines@[k]).0 != mark,
        decreases lines@.len() - i,
    {
        if lines[i].0 == mark {
            return Some(i);
        }
        i += 1;
    }
    proof {
        lemma_table_contains(lines@, mark);
    }
    None
}

fn keep_recent(lines: &Vec<(u64, u64)>, now: u64) -> (r: Vec<(u64, u64)>)
    ensures
        r@ == kept(lines@, |at: u64| recent(at, now)),
{
    let ghost keep = |at: u64| recent(at, now);
    let mut r: Vec<(u64, u64)> = Vec::new();
    let mut i: usize = 0;
    assert(lines@.take(0) =~= Seq::<(u64, u64)>::empty());
    while i < lines.len()
        invariant
            i <= lines@.len(),
            keep == (|at: u64| recent(at, now)),
            r@ == kept(lines@.take(i as int), keep),
        decreases lines@.len() - i,
    {
        assert(lines@.take(i + 1).drop_last() =~= lines@.take(i as int));
        let at: u64 = lines[i].1;
        if at > now || now - at < SEEN_TTL {
            r.push((lines[i].0, at));
        }
        i += 1;
    }
    assert(lines@.take(lines@.len() as int) =~= lines@);
    r
}

fn earliest_line(lines: &Vec<(u64, u64)>) -> (r: usize)
    requires
        lines@.len() > 0,
    ensures
        r < lines@.len(),
        forall|k: int| 0 <= k < lines@.len() ==> lines@[r as int].1 <= (#[trigger] lines@[k]).1,
{
    let mut best: usize = 0;
    let mut i: usize = 1;
    while i < lines.len()
        invariant
            1 <= i <= lines@.len(),
            best < i,
            forall|k: int| 0 <= k < i ==> lines@[best as int].1 <= (#[trigger] lines@[k]).1,
        decreases lines@.len() - i,
    {
        if lines[i].1 < lines[best].1 {
            best = i;
        }
        i += 1;
    }
    best
}

/// Note a line in what is remembered of a file; whether it is new, and what is remembered
/// then.
fn note_line(lines: Vec<(u64, u64)>, mark: u64, now: u64) -> (r: (bool, Vec<(u64, u64)>))
    requires
        distinct(lines@),
        lines@.len() <= MAX_LINES_PER_FILE,
    ensures
        distinct(r.1@),
        r.1@.len() <= MAX_LINES_PER_FILE,
        r.0 == !(table(lines@).contains_key(mark) && recent(table(lines@)[mark], now)),
        !r.0 ==> r.1@ == lines@,
        r.0 ==> exists|room: Map<u64, u64>| #[trigger]
            room_made(table(lines@), mark, now, room) && table(r.1@) == room.insert(mark, now),
{
    let ghost seen = table(lines@);
    proof {
        lemma_table_len(lines@);
    }
    if let Some(i) = find_line(&lines, mark) {
        proof {
            lemma_table_lookup(lines@, i as int);
        }
        let at: u64 = lines[i].1;
        if at > now || now - at < SEEN_TTL {
            return (false, lines);
        }
        let mut lines = lines;
        let ghost before = lines@;
        lines[i] = (mark, now);
        proof {
            lemma_table_update(before, i as int, now);
            assert(lines@ =~= before.update(i as int, (before[i as int].0, now)));
            assert(room_made(seen, mark, now, seen));
        }
        return (true, lines);
    }
    let mut lines = lines;
    let ghost mut room = seen;
    if lines.len() >= MAX_LINES_PER_FILE {
        let ghost keep = |at: u64| recent(at, now);
        proof {
            lemma_table_kept(lines@, keep);
            lemma_table_contains(kept(lines@, keep), mark);
        }
        lines = keep_recent(&lines, now);
        proof {
            lemma_table_len(lines@);
            room = table(lines@);
        }
        if lines.len() >= MAX_LINES_PER_FILE {
            let out: usize = earliest_line(&lines);
            let ghost before = lines@;
            proof {
                assert forall|k: u64| #[trigger] room.contains_key(k) implies room[before[out as int].0]
                    <= room[k] by {
                    lemma_table_contains(before, k);
                    let j = choose|j: int| 0 <= j < before.len() && (#[trigger] before[j]).0 == k;
                    lemma_table_lookup(before, j);
                    lemma_table_lookup(before, out as int);
                }
                lemma_table_lookup(before, out as int);
                assert(earliest(room, before[out as int].0));
                lemma_table_remove(before, out as int);
            }
            let _ = lines.remove(out);
            proof {
                room = room.remove(before[out as int].0);
            }
        }
    }
    assert(room_made(seen, mark, now, room));
    assert(table(lines@) == room);
    proof {
        lemma_table_push(lines@, mark, now);
    }
    lines.push((mark, now));
    (true, lines)
}

// ── What is read, remembered and forgotten ────────────────────────────────────

/// A read goes on at the byte at which the last one stopped, so that no byte is read twice and
/// none is passed over, as long as no more was added than is read at once. Beyond that, and of a
/// file that shrank or is not known, just the last bytes are read.
pub proof fn reading_goes_on_where_it_stopped(at: u64, len: u64, max: u64)
    ensures
        start_of(Some(at), at, max) is None,
        at < len && len - at <= max ==> start_of(Some(at), len, max) == Some(
            ReadStart { offset: at, mid_line: false },
        ),
        at < len && len - at > max ==> (start_of(Some(at), len, max) matches Some(s) && s.offset
            + max == len && s.mid_line),
        len < at ==> start_of(Some(at), len, max) == start_of(None, len, max),
        start_of(None, 0, max) is None,
        0 < len <= max ==> start_of(None, len, max) == Some(
            ReadStart { offset: 0, mid_line: false },
        ),
        len > max ==> (start_of(None, len, max) matches Some(s) && s.offset + max == len
            && s.mid_line),
{
}

/// Looking at a file remembers when. Of a known file all else stays; a new one starts with
/// nothing read and nothing reported. No other file changes, and one is forgotten only where as
/// many are remembered as there may be, and then one that nobody looked at since any other.
pub proof fn looking_at_a_file_leaves_the_others(
    before: Map<FileId, FileModel>,
    id: FileId,
    now: u64,
    after: Map<FileId, FileModel>,
    other: FileId,
)
    requires
        looked_at(before, id, now, after),
        other != id,
    ensures
        after.contains_key(id) && after[id].touched == now,
        before.contains_key(id) ==> after[id].read_to == before[id].read_to && after[id].seen
            == before[id].seen,
        !before.contains_key(id) ==> after[id].read_to == 0 && after[id].seen == Map::<
            u64,
            u64,
        >::empty(),
        after.contains_key(other) ==> before.contains_key(other) && after[other] == before[other],
        before.contains_key(other) && !after.contains_key(other) ==> !before.contains_key(id)
            && before.dom().len() >= 512 && (forall|k: FileId| #[trigger]
            before.contains_key(k) ==> before[other].touched <= before[k].touched),
{
}

/// A file that was read up to a byte is read on from there, unless it shrinks below it; what was
/// reported of it stays, and so does every other file that is still remembered.
pub proof fn read_bytes_are_remembered(
    before: Map<FileId, FileModel>,
    id: FileId,
    to: u64,
    now: u64,
    after: Map<FileId, FileModel>,
    len: u64,
    later: u64,
    other: FileId,
)
    requires
        marked(before, id, to, now, after),
        other != id,
    ensures
        after.contains_key(id) && after[id].read_to == to && after[id].touched == now,
        before.contains_key(id) ==> after[id].seen == before[id].seen,
        after.contains_key(other) ==> before.contains_key(other) && after[other] == before[other],
        ({
            let asked = started(after, id, len, later);
            &&& asked.dom() == after.dom()
            &&& asked[id].touched == later && asked[id].seen == after[id].seen
            &&& len >= to ==> asked[id].read_to == to
            &&& len < to ==> asked[id].read_to == 0
            &&& after.contains_key(other) ==> asked[other] == after[other]
        }),
        started(Map::empty(), id, len, later) == Map::<FileId, FileModel>::empty(),
{
    let mid = choose|mid: Map<FileId, FileModel>| #[trigger]
        looked_at(before, id, now, mid) && after == mid.insert(
            id,
            FileModel { read_to: to, touched: now, seen: mid[id].seen },
        );
    looking_at_a_file_leaves_the_others(before, id, now, mid, other);
    assert(started(after, id, len, later).dom() =~= after.dom());
}

/// A report counts for six hours.
pub proof fn reports_count_for_six_hours(at: u64, now: u64)
    ensures
        recent(at, now) <==> now < at + 21_600_000_000_000,
{
}

/// Room for a line is made only where as many are remembered of a file as there may be. What is
/// forgotten then no longer counts, or was reported before any that still does; all else stays
/// with its time.
pub proof fn only_old_reports_are_forgotten(
    before: Map<u64, u64>,
    line: u64,
    now: u64,
    after: Map<u64, u64>,
    other: u64,
)
    requires
        room_made(before, line, now, after),
    ensures
        after.contains_key(other) ==> before.contains_key(other) && after[other] == before[other],
        before.contains_key(line) || before.dom().len() < 256 ==> after == before,
        before.contains_key(other) && !after.contains_key(other) ==> now - before[other]
            >= 21_600_000_000_000 || (forall|k: u64| #[trigger]
            before.contains_key(k) && now - before[k] < 21_600_000_000_000 ==> before[other]
                <= before[k]),
{
    let keep = |at: u64| recent(at, now);
    let counting = kept_map(before, keep);
    assert forall|k: u64| #[trigger] before.contains_key(k) && recent(
        before[k],
        now,
    ) implies counting.contains_key(k) && counting[k] == before[k] by {
        assert(before.dom().filter(|j: u64| keep(before[j])).contains(k));
    }
}

/// What is hashed for a line says of each word what counts of it, in order: that it has a digit,
/// or its letters in lower case. Nothing else is hashed.
pub proof fn each_word_is_hashed(words: Seq<Seq<char>>, i: int, k: int)
    requires
        0 <= i < words.len(),
    ensures
        word_writes(words).len() == 2 * words.len(),
        word_writes(words)[2 * i + 1] == seq![0xffu8],
        0 <= k < words[i].len() && '0' <= words[i][k] <= '9' ==> word_writes(words)[2 * i]
            == encode_utf8("#"@),
        (forall|j: int| 0 <= j < words[i].len() ==> !('0' <= #[trigger] words[i][j] <= '9'))
            ==> word_writes(words)[2 * i] == encode_utf8(unicode_lowercase(words[i])),
    decreases words.len(),
{
    let before = words.drop_last();
    lemma_writes_len(before);
    if i < before.len() {
        each_word_is_hashed(before, i, k);
        assert(before[i] == words[i]);
    } else {
        let word = words.last();
        if 0 <= k < word.len() && '0' <= word[k] <= '9' {
            assert(ascii_digit(word[k]));
        }
    }
}

proof fn lemma_writes_len(words: Seq<Seq<char>>)
    ensures
        word_writes(words).len() == 2 * words.len(),
    decreases words.len(),
{
    if words.len() > 0 {
        lemma_writes_len(words.drop_last());
    }
}

/// Two lines with as many words are one message where each word of the one has a digit as the
/// other's has, or is the same but for case.
pub proof fn volatile_parts_do_not_count(a: Seq<char>, b: Seq<char>)
    requires
        line_words(a).len() == line_words(b).len(),
        forall|i: int|
            0 <= i < line_words(a).len() ==> alike(#[trigger] line_words(a)[i], line_words(b)[i]),
    ensures
        signature_of(a) == signature_of(b),
{
    lemma_alike_writes(line_words(a), line_words(b));
}

/// Whether two words both have a digit, or neither has one and they are the same but for case.
pub open spec fn alike(a: Seq<char>, b: Seq<char>) -> bool {
    ||| (exists|i: int| 0 <= i < a.len() && '0' <= #[trigger] a[i] <= '9') && (exists|i: int|
        0 <= i < b.len() && '0' <= #[trigger] b[i] <= '9')
    ||| (forall|i: int| 0 <= i < a.len() ==> !('0' <= #[trigger] a[i] <= '9')) && (forall|i: int|
        0 <= i < b.len() ==> !('0' <= #[trigger] b[i] <= '9')) && unicode_lowercase(a)
        == unicode_lowercase(b)
}

proof fn lemma_alike_writes(a: Seq<Seq<char>>, b: Seq<Seq<char>>)
    requires
        a.len() == b.len(),
        forall|i: int| 0 <= i < a.len() ==> alike(#[trigger] a[i], b[i]),
    ensures
        word_writes(a) == word_writes(b),
    decreases a.len(),
{
    if a.len() > 0 {
        assert forall|i: int| 0 <= i < a.drop_last().len() implies alike(
            #[trigger] a.drop_last()[i],
            b.drop_last()[i],
        ) by {
            assert(alike(a[i], b[i]));
        }
        lemma_alike_writes(a.drop_last(), b.drop_last());
        let x = a[a.len() - 1];
        let y = b[b.len() - 1];
        assert(alike(x, y));
        if exists|i: int| 0 <= i < x.len() && '0' <= #[trigger] x[i] <= '9' {
            let i = choose|i: int| 0 <= i < x.len() && '0' <= #[trigger] x[i] <= '9';
            let j = choose|j: int| 0 <= j < y.len() && '0' <= #[trigger] y[j] <= '9';
            assert(ascii_digit(x[i]) && ascii_digit(y[j]));
        }
        assert(word_identity(x) == word_identity(y));
    }
}

/// The words of a line hold letters and digits alone.
pub proof fn line_is_split_at_what_is_no_letter_or_digit(line: Seq<char>)
    ensures
        line_words(line) == split_on(line, |c: char| !unicode_alphanumeric(c)).filter(
            |w: Seq<char>| w.len() > 0,
        ),
{
    words_are_the_pieces_that_hold_something(
        split_on(line, |c: char| !unicode_alphanumeric(c)),
    );
}

} // verus!
