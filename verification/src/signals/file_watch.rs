//! Which files the log watcher reads, what it reads of them, and the changes that wait to
//! be looked at.

use crate::models::{FileChange, LogEvent, Moment};
use crate::paths::{
    Component, ComponentModel, PrefixKind, component_views, components, comps_have_parent,
    extension, extension_of, file_name, has_parent, join_names, joined_path, last_name,
    parse_components, path_identity, render, rendered, same_path,
};
use crate::signals::log_memory::{
    FileId, FileModel, LogMemory, ReadStart, looked_at, reading_goes_on_where_it_stopped, sighted,
    signature_of, start_of, tail_of,
};
use crate::signals::log_parser::{
    MAX_SNIPPETS, component_names, event_of, line_rank, names, nothing_is_said_of_unpicked_lines,
    parse_picked, picked_line_is_said, rank_of_line, rank_of_severity,
    severity_is_the_highest_reported, severity_name, severity_rank, snippets, top_rank,
};
use crate::text::{
    ascii_lowercase, has_prefix, lines, lines_of, lossy_utf8, opt_view, same, to_ascii_lowercase,
    unicode_lowercase, utf8_lossy, views,
};
use vstd::prelude::*;
use vstd::string::*;

verus! {

/// Changes kept between two looks at them; the oldest is dropped first.
pub const RING_SIZE: usize = 50;

/// Most bytes of a file that are read at once.
pub const MAX_READ_BYTES: u64 = 65_536;

/// Directories that discovery adds by itself at most.
pub const MAX_AUTO_WATCH_DIRS: usize = 96;

// ── Which files ───────────────────────────────────────────────────────────────

/// The extensions that are read as logs. Structured state files are not among them: they
/// are rewritten all the time and speak of errors without meaning any.
pub open spec fn text_extension(ext: Seq<char>) -> bool {
    ||| ext == "log"@
    ||| ext == "txt"@
    ||| ext == "err"@
    ||| ext == "out"@
    ||| ext == "trace"@
    ||| ext == "debug"@
    ||| ext == "warn"@
    ||| ext == "error"@
    ||| ext == "info"@
}

/// Whether an extension, in lower case, is read as a log.
pub fn is_text_extension(ext: &str) -> (r: bool)
    ensures
        r == text_extension(ext@),
{
    same(ext, "log") || same(ext, "txt") || same(ext, "err") || same(ext, "out") || same(
        ext,
        "trace",
    ) || same(ext, "debug") || same(ext, "warn") || same(ext, "error") || same(ext, "info")
}

/// Whether a directory name is one of the service's own.
pub open spec fn own_name(lower: Seq<char>) -> bool {
    lower == "eir"@ || lower == "co.swatto.eir"@ || "eir-"@.is_prefix_of(lower)
}

/// Whether a directory is never read: one of the service's own, which hold its prompts and
/// the model's replies, or the user's directory for temporary files.
pub open spec fn ignored_dir(comps: Seq<ComponentModel>) -> bool {
    let parts = names(comps).map_values(|n: Seq<char>| unicode_lowercase(n));
    ||| exists|i: int| 0 <= i < parts.len() && own_name(#[trigger] parts[i])
    ||| exists|i: int| 0 <= i && i + 2 < parts.len() && #[trigger] temp_at(parts, i)
}

/// Whether the user's directory for temporary files starts at position `i`.
pub open spec fn temp_at(parts: Seq<Seq<char>>, i: int) -> bool {
    parts[i] == "appdata"@ && parts[i + 1] == "local"@ && parts[i + 2] == "temp"@
}

fn comps_ignored(comps: &Vec<Component>) -> (r: bool)
    ensures
        r == ignored_dir(component_views(comps@)),
{
    let found = component_names(comps);
    let ghost low = names(component_views(comps@)).map_values(
        |n: Seq<char>| unicode_lowercase(n),
    );
    let mut parts: Vec<String> = Vec::new();
    let mut i: usize = 0;
    while i < found.len()
        invariant
            i <= found@.len(),
            views(found@) == names(component_views(comps@)),
            low == names(component_views(comps@)).map_values(
                |n: Seq<char>| unicode_lowercase(n),
            ),
            parts@.len() == i,
            forall|k: int| 0 <= k < i ==> (#[trigger] parts@[k])@ == low[k],
            forall|k: int| 0 <= k < i ==> !own_name(#[trigger] low[k]),
            forall|k: int| 0 <= k && k + 2 < i ==> !#[trigger] temp_at(low, k),
        decreases found@.len() - i,
    {
        assert(views(found@)[i as int] == found@[i as int]@);
        let lower = found[i].to_lowercase();
        assert(lower@ == low[i as int]);
        assert(low.len() == found@.len());
        let text = lower.as_str();
        if same(text, "eir") || same(text, "co.swatto.eir") || has_prefix(text, "eir-") {
            assert(own_name(low[i as int]));
            return true;
        }
        if i >= 2 && same(text, "temp") && same(parts[i - 1].as_str(), "local") && same(
            parts[i - 2].as_str(),
            "appdata",
        ) {
            assert(temp_at(low, i - 2));
            return true;
        }
        assert(i >= 2 ==> !temp_at(low, i - 2));
        parts.push(lower);
        i += 1;
    }
    assert(low.len() == found@.len());
    false
}

/// Whether a directory is never read.
pub fn is_ignored_dir(dir: &str) -> (r: bool)
    ensures
        r == ignored_dir(components(dir@)),
{
    let comps = parse_components(dir);
    comps_ignored(&comps)
}

/// The extension of a path's file.
pub open spec fn path_extension(path: Seq<char>) -> Option<Seq<char>> {
    match file_name(components(path)) {
        Some(name) => extension(name),
        None => None,
    }
}

/// The extension of a path's file.
pub fn extension_of_path(path: &str) -> (r: Option<String>)
    ensures
        opt_view(r) == path_extension(path@),
{
    let comps = parse_components(path);
    match last_name(&comps) {
        Some(name) => extension_of(name),
        None => None,
    }
}

/// Whether a file is one that the watcher reads: a log's extension, outside the directories
/// that are never read.
pub open spec fn log_candidate(path: Seq<char>) -> bool {
    &&& path_extension(path) is Some
    &&& text_extension(ascii_lowercase(path_extension(path)->0))
    &&& has_parent(components(path))
    &&& !ignored_dir(components(path).drop_last())
}

/// A file that the watcher reads. By the path alone, so cheap enough for every raw event.
pub fn is_log_candidate(path: &str) -> (r: bool)
    ensures
        r == log_candidate(path@),
{
    let ext = match extension_of_path(path) {
        Some(ext) => to_ascii_lowercase(ext.as_str()),
        None => return false,
    };
    if !is_text_extension(ext.as_str()) {
        return false;
    }
    let mut comps = parse_components(path);
    if !comps_have_parent(&comps) {
        return false;
    }
    let ghost all = comps@;
    let _ = comps.pop();
    assert(component_views(comps@) =~= component_views(all).drop_last());
    !comps_ignored(&comps)
}

/// A raw event of the file system.
pub enum WatchEvent {
    Created(Vec<String>),
    Modified(Vec<String>),
    /// An access, a removal, or anything else.
    Other(Vec<String>),
    /// The watch itself failed.
    Failed,
}

/// Whether one of the paths is a file that the watcher reads.
pub open spec fn any_candidate(paths: Seq<String>) -> bool {
    exists|i: int| 0 <= i < paths.len() && log_candidate((#[trigger] paths[i])@)
}

/// Whether a raw event is worth queueing: a creation or change of a log file, or a failure
/// of the watch.
pub open spec fn worthy(event: WatchEvent) -> bool {
    match event {
        WatchEvent::Created(paths) => any_candidate(paths@),
        WatchEvent::Modified(paths) => any_candidate(paths@),
        WatchEvent::Other(_) => false,
        WatchEvent::Failed => true,
    }
}

fn has_candidate(paths: &Vec<String>) -> (r: bool)
    ensures
        r == any_candidate(paths@),
{
    let mut i: usize = 0;
    while i < paths.len()
        invariant
            i <= paths@.len(),
            forall|k: int| 0 <= k < i ==> !log_candidate((#[trigger] paths@[k])@),
        decreases paths@.len() - i,
    {
        if is_log_candidate(paths[i].as_str()) {
            return true;
        }
        i += 1;
    }
    false
}

/// Whether a raw event is worth queueing.
pub fn worth_queueing(event: &WatchEvent) -> (r: bool)
    ensures
        r == worthy(*event),
{
    match event {
        WatchEvent::Created(paths) => has_candidate(paths),
        WatchEvent::Modified(paths) => has_candidate(paths),
        WatchEvent::Other(_) => false,
        WatchEvent::Failed => true,
    }
}

/// Whether a directory entry is a log written of late: a file with a log's extension,
/// modified after the cut-off.
pub open spec fn recent_log(
    is_file: bool,
    path: Seq<char>,
    modified: Option<u64>,
    cutoff: u64,
) -> bool {
    is_file && modified is Some && modified->0 > cutoff && text_extension(
        match path_extension(path) {
            Some(ext) => unicode_lowercase(ext),
            None => Seq::empty(),
        },
    )
}

/// Whether a directory entry is a log written of late.
pub fn is_recent_log(is_file: bool, path: &str, modified: Option<u64>, cutoff: u64) -> (r: bool)
    ensures
        r == recent_log(is_file, path@, modified, cutoff),
{
    let ext = match extension_of_path(path) {
        Some(ext) => ext.to_lowercase(),
        None => String::new(),
    };
    assert(Seq::<char>::empty() =~= ext@ || path_extension(path@) is Some);
    let fresh = match modified {
        Some(at) => at > cutoff,
        None => false,
    };
    is_file && fresh && is_text_extension(ext.as_str())
}

// ── Reading ───────────────────────────────────────────────────────────────────

/// The position after the last line feed, or the start where there is none.
pub open spec fn consumed(bytes: Seq<u8>) -> int
    decreases bytes.len(),
{
    if bytes.len() == 0 || bytes.last() == 10u8 {
        bytes.len() as int
    } else {
        consumed(bytes.drop_last())
    }
}

/// The position after the first line feed, or the start where there is none.
pub open spec fn after_first_line(bytes: Seq<u8>) -> int {
    match bytes.index_of_first(10u8) {
        Some(i) => i + 1,
        None => 0,
    }
}

/// What is taken of the bytes that were read: the lines that have ended, without the first
/// where reading began in the middle of one.
pub open spec fn taken(bytes: Seq<u8>, mid_line: bool) -> Seq<u8> {
    let whole = bytes.take(consumed(bytes));
    if mid_line {
        whole.skip(after_first_line(whole))
    } else {
        whole
    }
}

proof fn lemma_consumed_at(bytes: Seq<u8>, n: int)
    requires
        0 <= n <= bytes.len(),
        n > 0 ==> bytes[n - 1] == 10u8,
        forall|k: int| n <= k < bytes.len() ==> bytes[k] != 10u8,
    ensures
        consumed(bytes) == n,
    decreases bytes.len(),
{
    if n < bytes.len() {
        lemma_consumed_at(bytes.drop_last(), n);
    }
}

proof fn lemma_consumed_is(bytes: Seq<u8>)
    ensures
        0 <= consumed(bytes) <= bytes.len(),
        consumed(bytes) > 0 ==> bytes[consumed(bytes) - 1] == 10u8,
        forall|k: int| consumed(bytes) <= k < bytes.len() ==> bytes[k] != 10u8,
    decreases bytes.len(),
{
    if bytes.len() > 0 && bytes.last() != 10u8 {
        lemma_consumed_is(bytes.drop_last());
        assert forall|k: int| consumed(bytes) <= k < bytes.len() implies bytes[k] != 10u8 by {
            if k < bytes.len() - 1 {
                assert(bytes.drop_last()[k] != 10u8);
            }
        }
    }
}

/// Only whole lines are taken of what was read.
pub proof fn only_whole_lines_are_taken(bytes: Seq<u8>, mid_line: bool)
    ensures
        taken(bytes, mid_line).len() > 0 ==> taken(bytes, mid_line).last() == 10u8,
        !bytes.contains(10u8) ==> taken(bytes, mid_line).len() == 0 && consumed(bytes) == 0,
{
    lemma_consumed_is(bytes);
    let whole = bytes.take(consumed(bytes));
    whole.index_of_first_ensures(10u8);
    if consumed(bytes) > 0 {
        assert(bytes[consumed(bytes) - 1] == 10u8);
    }
}

/// Reading a file in two goes, the second from where the first stopped, takes the same as
/// reading it in one: no line is taken in two halves, twice, or never.
pub proof fn two_reads_take_the_same_as_one(bytes: Seq<u8>, more: Seq<u8>)
    ensures
        ({
            let rest = (bytes + more).skip(consumed(bytes));
            &&& taken(bytes + more, false) == taken(bytes, false) + taken(rest, false)
            &&& consumed(bytes + more) == consumed(bytes) + consumed(rest)
        }),
{
    let all = bytes + more;
    let n = consumed(bytes);
    lemma_consumed_is(bytes);
    let rest = all.skip(n);
    let k = consumed(rest);
    lemma_consumed_is(rest);
    assert(n + k > 0 ==> all[n + k - 1] == 10u8) by {
        if k > 0 {
            assert(rest[k - 1] == all[n + k - 1]);
        } else if n > 0 {
            assert(all[n - 1] == bytes[n - 1]);
        }
    }
    assert forall|i: int| n + k <= i < all.len() implies all[i] != 10u8 by {
        assert(rest[i - n] == all[i]);
    }
    lemma_consumed_at(all, n + k);
    assert(all.take(n + k) =~= bytes.take(n) + rest.take(k));
}

/// How far a file has been read once it was read at some sizes, each time from where the last
/// read stopped.
pub open spec fn read_up_to(file: Seq<u8>, sizes: Seq<int>) -> int
    decreases sizes.len(),
{
    if sizes.len() == 0 {
        0
    } else {
        let at = read_up_to(file, sizes.drop_last());
        at + consumed(file.subrange(at, sizes.last()))
    }
}

/// What was taken of a file that was read at some sizes.
pub open spec fn taken_in_turn(file: Seq<u8>, sizes: Seq<int>) -> Seq<u8>
    decreases sizes.len(),
{
    if sizes.len() == 0 {
        Seq::empty()
    } else {
        let at = read_up_to(file, sizes.drop_last());
        taken_in_turn(file, sizes.drop_last()) + taken(file.subrange(at, sizes.last()), false)
    }
}

/// Whether a file grows through some sizes.
pub open spec fn grows(file: Seq<u8>, sizes: Seq<int>) -> bool {
    forall|i: int, j: int|
        0 <= i <= j < sizes.len() ==> 0 <= #[trigger] sizes[i] <= #[trigger] sizes[j]
            <= file.len()
}

/// However often a growing file is read, each time from where the last read stopped, what is
/// taken is what one read at the end takes: every line that has ended, once and in order.
pub proof fn many_reads_take_the_same_as_one(file: Seq<u8>, sizes: Seq<int>)
    requires
        sizes.len() > 0,
        grows(file, sizes),
    ensures
        taken_in_turn(file, sizes) == taken(file.take(sizes.last()), false),
        read_up_to(file, sizes) == consumed(file.take(sizes.last())),
    decreases sizes.len(),
{
    let n = sizes.len() - 1;
    let before = sizes.drop_last();
    let last = sizes.last();
    assert(0 <= sizes[n] <= file.len());
    if n == 0 {
        assert(file.subrange(0, last) =~= file.take(last));
        assert(read_up_to(file, before) == 0);
        assert(taken_in_turn(file, before) + taken(file.take(last), false) =~= taken(
            file.take(last),
            false,
        ));
    } else {
        assert(grows(file, before)) by {
            assert forall|i: int, j: int| 0 <= i <= j < before.len() implies 0
                <= #[trigger] before[i] <= #[trigger] before[j] <= file.len() by {
                assert(sizes[i] <= sizes[j]);
            }
        }
        many_reads_take_the_same_as_one(file, before);
        let size = before.last();
        assert(size == sizes[n - 1] && size <= sizes[n]);
        let bytes = file.take(size);
        let more = file.subrange(size, last);
        lemma_consumed_is(bytes);
        assert(bytes + more =~= file.take(last));
        assert((bytes + more).skip(consumed(bytes)) =~= file.subrange(consumed(bytes), last));
        two_reads_take_the_same_as_one(bytes, more);
    }
}

/// A line longer than a read is not waited for: once the file has grown, it is read from its
/// tail.
pub proof fn line_longer_than_a_read_is_passed_over(bytes: Seq<u8>, start: u64, len: u64)
    requires
        bytes.len() == MAX_READ_BYTES,
        !bytes.contains(10u8),
        start + bytes.len() < len,
    ensures
        start_of(Some((start + consumed(bytes)) as u64), len, MAX_READ_BYTES) == Some(
            tail_of(len, MAX_READ_BYTES),
        ),
{
    only_whole_lines_are_taken(bytes, false);
}

/// The text of the bytes read from byte `start` of a file, and the byte up to which it was
/// consumed. A line that is still being written is left for the next read, so that it is
/// never parsed in two halves: where no line has ended, nothing is consumed.
pub fn take_chunk(bytes: &Vec<u8>, start: u64, mid_line: bool) -> (r: (String, u64))
    requires
        start + bytes@.len() <= u64::MAX,
    ensures
        r.0@ == utf8_lossy(taken(bytes@, mid_line)),
        r.1 == start + consumed(bytes@),
{
    let mut end: usize = bytes.len();
    while end > 0 && bytes[end - 1] != 10u8
        invariant
            end <= bytes@.len(),
            forall|k: int| end <= k < bytes@.len() ==> bytes@[k] != 10u8,
        ensures
            end <= bytes@.len(),
            forall|k: int| end <= k < bytes@.len() ==> bytes@[k] != 10u8,
            end > 0 ==> bytes@[end - 1] == 10u8,
        decreases end,
    {
        end -= 1;
    }
    proof {
        lemma_consumed_at(bytes@, end as int);
    }
    let ghost whole = bytes@.take(end as int);
    let mut from: usize = 0;
    if mid_line {
        let mut i: usize = 0;
        while i < end && bytes[i] != 10u8
            invariant
                i <= end <= bytes@.len(),
                whole == bytes@.take(end as int),
                forall|k: int| 0 <= k < i ==> whole[k] != 10u8,
            ensures
                i <= end,
                forall|k: int| 0 <= k < i ==> whole[k] != 10u8,
                i < end ==> whole[i as int] == 10u8,
            decreases end - i,
        {
            i += 1;
        }
        if i < end {
            from = i + 1;
        }
    }
    let text = bytes_between(bytes, from, end);
    proof {
        lemma_first_line(whole, mid_line, from as int);
        assert(text@ =~= taken(bytes@, mid_line));
    }
    let shown = lossy_utf8(text.as_slice());
    (shown, start + end as u64)
}

proof fn lemma_first_line(whole: Seq<u8>, mid_line: bool, from: int)
    requires
        0 <= from <= whole.len(),
        !mid_line ==> from == 0,
        mid_line && from > 0 ==> whole[from - 1] == 10u8 && forall|k: int|
            0 <= k < from - 1 ==> whole[k] != 10u8,
        mid_line && from == 0 ==> forall|k: int| 0 <= k < whole.len() ==> whole[k] != 10u8,
    ensures
        from == (if mid_line {
            after_first_line(whole)
        } else {
            0
        }),
{
    whole.index_of_first_ensures(10u8);
    if mid_line && from > 0 {
        assert(whole[from - 1] == 10u8);
        assert(whole.contains(10u8));
    }
}

fn bytes_between(bytes: &Vec<u8>, from: usize, to: usize) -> (r: Vec<u8>)
    requires
        from <= to <= bytes@.len(),
    ensures
        r@ == bytes@.subrange(from as int, to as int),
{
    let mut r: Vec<u8> = Vec::new();
    let mut i: usize = from;
    while i < to
        invariant
            from <= i <= to <= bytes@.len(),
            r@ == bytes@.subrange(from as int, i as int),
        decreases to - i,
    {
        r.push(bytes[i]);
        assert(bytes@.subrange(from as int, i + 1) =~= bytes@.subrange(from as int, i as int).push(
            bytes@[i as int],
        ));
        i += 1;
    }
    r
}

/// Whether a path's extension is one that is read.
pub open spec fn readable(path: Seq<char>) -> bool {
    path_extension(path) is Some && text_extension(unicode_lowercase(path_extension(path)->0))
}

/// Where to read a file that changed, if there is anything to read: it has a log's
/// extension, and something was added to it.
pub fn plan_read(path: &str, size_bytes: u64, memory: &mut LogMemory, now: u64) -> (r: Option<
    ReadStart,
>)
    requires
        old(memory).wf(),
    ensures
        final(memory).wf(),
        !readable(path@) ==> r is None && final(memory)@ == old(memory)@,
        readable(path@) ==> ({
            let id = path_identity(path@);
            if old(memory)@.contains_key(id) {
                let file = old(memory)@[id];
                &&& r == start_of(Some(file.read_to), size_bytes, MAX_READ_BYTES)
                &&& final(memory)@ == old(memory)@.insert(
                    id,
                    FileModel {
                        read_to: if size_bytes < file.read_to {
                            0
                        } else {
                            file.read_to
                        },
                        touched: now,
                        seen: file.seen,
                    },
                )
            } else {
                &&& r == start_of(None, size_bytes, MAX_READ_BYTES)
                &&& final(memory)@ == old(memory)@
            }
        }),
{
    let ext = match extension_of_path(path) {
        Some(ext) => ext.to_lowercase(),
        None => return None,
    };
    if !is_text_extension(ext.as_str()) {
        return None;
    }
    memory.read_start(path, size_bytes, MAX_READ_BYTES, now)
}

/// Whether the memory answered `picked` for the first `k` lines, one after the other, and
/// came to `after`: it is asked of a line of interest alone.
pub open spec fn sightings(
    before: Map<FileId, FileModel>,
    id: FileId,
    lines: Seq<Seq<char>>,
    k: int,
    now: u64,
    picked: Seq<bool>,
    after: Map<FileId, FileModel>,
) -> bool
    decreases k,
{
    if k <= 0 {
        after == before
    } else if line_rank(lines[k - 1]) > 0 {
        exists|mid: Map<FileId, FileModel>|
            sightings(before, id, lines, k - 1, now, picked, mid) && #[trigger] sighted(
                mid,
                id,
                signature_of(lines[k - 1]),
                now,
                picked[k - 1],
                after,
            )
    } else {
        !picked[k - 1] && sightings(before, id, lines, k - 1, now, picked, after)
    }
}

proof fn lemma_sightings_extend(
    before: Map<FileId, FileModel>,
    id: FileId,
    lines: Seq<Seq<char>>,
    k: int,
    now: u64,
    picked: Seq<bool>,
    more: Seq<bool>,
    after: Map<FileId, FileModel>,
)
    requires
        sightings(before, id, lines, k, now, picked, after),
        0 <= k <= picked.len() <= more.len(),
        forall|i: int| 0 <= i < picked.len() ==> picked[i] == more[i],
    ensures
        sightings(before, id, lines, k, now, more, after),
    decreases k,
{
    if k > 0 {
        if line_rank(lines[k - 1]) > 0 {
            let mid = choose|mid: Map<FileId, FileModel>|
                sightings(before, id, lines, k - 1, now, picked, mid) && #[trigger] sighted(
                    mid,
                    id,
                    signature_of(lines[k - 1]),
                    now,
                    picked[k - 1],
                    after,
                );
            lemma_sightings_extend(before, id, lines, k - 1, now, picked, more, mid);
        } else {
            lemma_sightings_extend(before, id, lines, k - 1, now, picked, more, after);
        }
    }
}

/// Whether the picked lines come to nothing: no excerpt and no severity.
pub open spec fn nothing_to_say(all: Seq<Seq<char>>, picked: Seq<bool>) -> bool {
    snippets(all, picked).len() == 0 && severity_name(top_rank(all, picked)) == "INFO"@
}

/// Whether `r` is the event of a text whose lines the memory, once it has the file as read
/// up to byte `read_to`, answered with `picked`.
pub open spec fn absorbed(
    before: Map<FileId, FileModel>,
    path: Seq<char>,
    content: Seq<char>,
    read_to: u64,
    now: u64,
    mid: Map<FileId, FileModel>,
    picked: Seq<bool>,
    r: Option<LogEvent>,
    after: Map<FileId, FileModel>,
) -> bool {
    let id = path_identity(path);
    let all = lines(content);
    let marked = mid.insert(id, FileModel { read_to, touched: now, seen: mid[id].seen });
    &&& looked_at(before, id, now, mid)
    &&& picked.len() == all.len()
    &&& sightings(marked, id, all, all.len() as int, now, picked, after)
    &&& (r is None <==> nothing_to_say(all, picked))
    &&& (r is Some ==> event_of(r->0, path, content, picked))
}

/// The event of what was read of a file up to byte `read_to`, if it holds a line of
/// interest that was not reported yet. What it reports is remembered.
pub fn absorb_chunk(
    path: &str,
    content: &str,
    read_to: u64,
    memory: &mut LogMemory,
    now: u64,
) -> (r: Option<LogEvent>)
    requires
        old(memory).wf(),
    ensures
        final(memory).wf(),
        exists|mid: Map<FileId, FileModel>, picked: Seq<bool>| #[trigger]
            absorbed(
                old(memory)@,
                path@,
                content@,
                read_to,
                now,
                mid,
                picked,
                r,
                final(memory)@,
            ),
{
    let ghost id = path_identity(path@);
    memory.mark_read(path, read_to, now);
    let ghost mid = choose|mid: Map<FileId, FileModel>| #[trigger]
        looked_at(old(memory)@, id, now, mid) && memory@ == mid.insert(
            id,
            FileModel { read_to, touched: now, seen: mid[id].seen },
        );
    let ghost seen = memory@;
    let all = lines_of(content);
    let ghost texts = lines(content@);
    assert(texts.len() == all@.len());
    let mut picked: Vec<bool> = Vec::new();
    let mut i: usize = 0;
    while i < all.len()
        invariant
            i <= all@.len(),
            memory.wf(),
            id == path_identity(path@),
            views(all@) == texts,
            texts.len() == all@.len(),
            picked@.len() == i,
            sightings(seen, id, texts, i as int, now, picked@, memory@),
        decreases all@.len() - i,
    {
        assert(texts[i as int] == all@[i as int]@);
        let line = all[i].as_str();
        let ghost before = memory@;
        let pick = if rank_of_line(line) > 0 {
            memory.first_sighting(path, line, now)
        } else {
            false
        };
        proof {
            lemma_sightings_extend(
                seen,
                id,
                texts,
                i as int,
                now,
                picked@,
                picked@.push(pick),
                before,
            );
        }
        picked.push(pick);
        proof {
            let k = i + 1;
            assert(picked@[k - 1] == pick);
            if line_rank(texts[k - 1]) > 0 {
                assert(sighted(
                    before,
                    id,
                    signature_of(texts[k - 1]),
                    now,
                    picked@[k - 1],
                    memory@,
                ));
            }
            assert(sightings(seen, id, texts, k, now, picked@, memory@));
        }
        i += 1;
    }
    let event = parse_picked(path, content, &all, &picked);
    assert(views(event.error_snippets@).len() == event.error_snippets@.len());
    let quiet = event.error_snippets.len() == 0 && same(event.severity.as_str(), "INFO");
    let r = if quiet {
        None
    } else {
        Some(event)
    };
    assert(absorbed(old(memory)@, path@, content@, read_to, now, mid, picked@, r, memory@));
    r
}

// ── Changes waiting ───────────────────────────────────────────────────────────

/// A log event with its texts as characters.
pub struct LogEventModel {
    pub program: Seq<char>,
    pub log_path: Seq<char>,
    pub severity: Seq<char>,
    pub error_snippets: Seq<Seq<char>>,
    pub content_excerpt: Seq<char>,
}

/// A change with its texts as characters.
pub struct FileChangeModel {
    pub path: Seq<char>,
    pub kind: Seq<char>,
    pub size_bytes: u64,
    pub timestamp: Moment,
    pub log_event: Option<LogEventModel>,
}

impl View for LogEvent {
    type V = LogEventModel;

    open spec fn view(&self) -> LogEventModel {
        LogEventModel {
            program: self.program@,
            log_path: self.log_path@,
            severity: self.severity@,
            error_snippets: views(self.error_snippets@),
            content_excerpt: self.content_excerpt@,
        }
    }
}

impl View for FileChange {
    type V = FileChangeModel;

    open spec fn view(&self) -> FileChangeModel {
        FileChangeModel {
            path: self.path@,
            kind: self.kind@,
            size_bytes: self.size_bytes,
            timestamp: self.timestamp,
            log_event: match self.log_event {
                Some(event) => Some(event@),
                None => None,
            },
        }
    }
}

/// The first events of a sequence that there is room for, after those that are there.
pub open spec fn filled(old: Seq<Seq<char>>, new: Seq<Seq<char>>) -> Seq<Seq<char>> {
    let room = if old.len() >= MAX_SNIPPETS {
        0
    } else {
        MAX_SNIPPETS - old.len()
    };
    old + if new.len() <= room {
        new
    } else {
        new.take(room)
    }
}

/// A log event with a newer one folded in: the higher severity, the excerpts of both as far
/// as there is room, and the newer one's text where the older has none.
pub open spec fn merged_event(old: LogEventModel, new: LogEventModel) -> LogEventModel {
    LogEventModel {
        program: old.program,
        log_path: old.log_path,
        severity: if rank_of_severity(new.severity) > rank_of_severity(old.severity) {
            new.severity
        } else {
            old.severity
        },
        error_snippets: filled(old.error_snippets, new.error_snippets),
        content_excerpt: if old.content_excerpt.len() == 0 {
            new.content_excerpt
        } else {
            old.content_excerpt
        },
    }
}

/// A change with a newer one to the same file folded in.
pub open spec fn merged_change(into: FileChangeModel, newer: FileChangeModel) -> FileChangeModel {
    FileChangeModel {
        path: into.path,
        kind: newer.kind,
        size_bytes: newer.size_bytes,
        timestamp: newer.timestamp,
        log_event: match (into.log_event, newer.log_event) {
            (Some(old), Some(new)) => Some(merged_event(old, new)),
            (None, new) => new,
            (Some(old), None) => Some(old),
        },
    }
}

fn merge_event(old: LogEvent, new: LogEvent) -> (r: LogEvent)
    ensures
        r@ == merged_event(old@, new@),
{
    let ghost o = old@;
    let ghost n = new@;
    let mut old = old;
    if severity_rank(new.severity.as_str()) > severity_rank(old.severity.as_str()) {
        old.severity = new.severity;
    }
    let ghost had = old.error_snippets@;
    assert(views(had).len() == had.len());
    let ghost more = new.error_snippets@;
    assert(views(more).len() == more.len());
    let mut i: usize = 0;
    let ghost all = filled(o.error_snippets, n.error_snippets);
    assert(views(old.error_snippets@) =~= all.take(o.error_snippets.len() as int));
    while i < new.error_snippets.len() && old.error_snippets.len() < MAX_SNIPPETS
        invariant
            i <= more.len(),
            new.error_snippets@ == more,
            o.error_snippets == views(had),
            n.error_snippets == views(more),
            views(had).len() == had.len(),
            views(more).len() == more.len(),
            all == filled(o.error_snippets, n.error_snippets),
            old.program@ == o.program,
            old.log_path@ == o.log_path,
            old.severity@ == (if rank_of_severity(n.severity) > rank_of_severity(o.severity) {
                n.severity
            } else {
                o.severity
            }),
            old.content_excerpt@ == o.content_excerpt,
            new.content_excerpt@ == n.content_excerpt,
            old.error_snippets@.len() == had.len() + i,
            i > 0 ==> had.len() + i <= MAX_SNIPPETS,
            views(old.error_snippets@) == all.take(o.error_snippets.len() + i),
        decreases more.len() - i,
    {
        let text = new.error_snippets[i].clone();
        assert(n.error_snippets[i as int] == text@);
        let ghost before = old.error_snippets@;
        old.error_snippets.push(text);
        assert(views(old.error_snippets@) =~= all.take(o.error_snippets.len() + i + 1)) by {
            assert(all[o.error_snippets.len() + i] == text@);
            assert(views(before.push(text)) =~= views(before).push(text@));
        }
        i += 1;
    }
    assert(views(old.error_snippets@) =~= all) by {
        assert(all.len() == o.error_snippets.len() + i);
        assert(all.take(all.len() as int) =~= all);
    }
    if old.content_excerpt.as_str().is_empty() {
        old.content_excerpt = new.content_excerpt;
    }
    old
}

/// Fold a newer change to the same file into the one still waiting, so that a busy log
/// becomes one entry per analysis rather than dozens.
pub fn merge_change(into: FileChange, newer: FileChange) -> (r: FileChange)
    ensures
        r@ == merged_change(into@, newer@),
        r.path@ == into.path@,
{
    let log_event = match (into.log_event, newer.log_event) {
        (Some(old), Some(new)) => Some(merge_event(old, new)),
        (None, new) => new,
        (Some(old), None) => Some(old),
    };
    FileChange {
        path: into.path,
        kind: newer.kind,
        size_bytes: newer.size_bytes,
        timestamp: newer.timestamp,
        log_event,
    }
}

/// Merging never lowers a severity.
pub proof fn merging_keeps_the_highest_severity(old: LogEventModel, new: LogEventModel)
    ensures
        rank_of_severity(merged_event(old, new).severity) >= rank_of_severity(old.severity),
        rank_of_severity(merged_event(old, new).severity) >= rank_of_severity(new.severity),
{
}

/// Merging never goes beyond the cap, and keeps the excerpts that were there.
pub proof fn merging_keeps_the_cap(old: LogEventModel, new: LogEventModel)
    requires
        old.error_snippets.len() <= MAX_SNIPPETS,
    ensures
        merged_event(old, new).error_snippets.len() <= MAX_SNIPPETS,
        old.error_snippets.is_prefix_of(merged_event(old, new).error_snippets),
{
    let m = merged_event(old, new).error_snippets;
    assert(m.take(old.error_snippets.len() as int) =~= old.error_snippets);
}

/// The changes that wait to be looked at.
pub struct ChangeRing {
    pub pending: Vec<FileChange>,
}

/// The views of a sequence of changes.
pub open spec fn change_views(changes: Seq<FileChange>) -> Seq<FileChangeModel> {
    changes.map_values(|c: FileChange| c@)
}

/// The position of the change to a path, if one waits.
pub open spec fn pending_at(pending: Seq<FileChangeModel>, path: Seq<char>) -> Option<int>
    decreases pending.len(),
{
    if pending.len() == 0 {
        None
    } else if pending_at(pending.drop_last(), path) is Some {
        pending_at(pending.drop_last(), path)
    } else if path_identity(pending.last().path) == path_identity(path) {
        Some(pending.len() - 1)
    } else {
        None
    }
}

/// What waits once a change has come: it is folded into a waiting change to the same file,
/// or added at the end, where the oldest makes room for it.
pub open spec fn noted(pending: Seq<FileChangeModel>, change: FileChangeModel) -> Seq<
    FileChangeModel,
> {
    match pending_at(pending, change.path) {
        Some(i) => pending.update(i, merged_change(pending[i], change)),
        None => if pending.len() >= RING_SIZE {
            pending.skip(1).push(change)
        } else {
            pending.push(change)
        },
    }
}

/// Whether no two of the waiting changes are to one file.
pub open spec fn one_per_file(pending: Seq<FileChangeModel>) -> bool {
    forall|i: int, j: int|
        0 <= i < j < pending.len() ==> path_identity((#[trigger] pending[i]).path)
            != path_identity((#[trigger] pending[j]).path)
}

proof fn lemma_pending_at(pending: Seq<FileChangeModel>, path: Seq<char>)
    ensures
        match pending_at(pending, path) {
            Some(i) => 0 <= i < pending.len() && path_identity(pending[i].path) == path_identity(
                path,
            ) && forall|k: int|
                0 <= k < i ==> path_identity((#[trigger] pending[k]).path) != path_identity(path),
            None => forall|k: int|
                0 <= k < pending.len() ==> path_identity((#[trigger] pending[k]).path)
                    != path_identity(path),
        },
    decreases pending.len(),
{
    if pending.len() > 0 {
        lemma_pending_at(pending.drop_last(), path);
        let before = pending.drop_last();
        match pending_at(before, path) {
            Some(i) => {
                assert(before[i] == pending[i]);
                assert forall|k: int| 0 <= k < i implies path_identity((#[trigger] pending[k]).path)
                    != path_identity(path) by {
                    assert(before[k] == pending[k]);
                }
            },
            None => {
                assert forall|k: int| 0 <= k < before.len() implies path_identity(
                    (#[trigger] pending[k]).path,
                ) != path_identity(path) by {
                    assert(before[k] == pending[k]);
                }
            },
        }
    }
}

impl ChangeRing {
    /// At most as many changes as the cap, and no two to one file.
    pub open spec fn wf(self) -> bool {
        self.pending@.len() <= RING_SIZE && one_per_file(change_views(self.pending@))
    }

    /// Nothing waits.
    pub fn new() -> (r: ChangeRing)
        ensures
            r.wf(),
            r.pending@.len() == 0,
    {
        ChangeRing { pending: Vec::new() }
    }

    /// Have a change wait to be looked at.
    pub fn note(&mut self, change: FileChange)
        requires
            old(self).wf(),
        ensures
            final(self).wf(),
            change_views(final(self).pending@) == noted(change_views(old(self).pending@), change@),
    {
        let ghost all = change_views(self.pending@);
        let ghost was = self.pending@;
        proof {
            lemma_pending_at(all, change.path@);
        }
        let mut i: usize = 0;
        while i < self.pending.len()
            invariant
                i <= self.pending@.len(),
                all == change_views(self.pending@),
                forall|k: int|
                    0 <= k < i ==> path_identity((#[trigger] all[k]).path) != path_identity(
                        change.path@,
                    ),
            ensures
                i <= self.pending@.len(),
                all == change_views(self.pending@),
                forall|k: int|
                    0 <= k < i ==> path_identity((#[trigger] all[k]).path) != path_identity(
                        change.path@,
                    ),
                i < self.pending@.len() ==> path_identity(all[i as int].path) == path_identity(
                    change.path@,
                ),
            decreases self.pending@.len() - i,
        {
            assert(all[i as int] == self.pending@[i as int]@);
            if same_path(self.pending[i].path.as_str(), change.path.as_str()) {
                break;
            }
            i += 1;
        }
        if i < self.pending.len() {
            let ghost new = change@;
            let waiting = self.pending.remove(i);
            let merged = merge_change(waiting, change);
            self.pending.insert(i, merged);
            proof {
                let now = change_views(self.pending@);
                assert(pending_at(all, new.path) == Some(i as int));
                assert(now =~= all.update(i as int, merged_change(all[i as int], new)));
                assert forall|a: int, b: int| 0 <= a < b < now.len() implies path_identity(
                    (#[trigger] now[a]).path,
                ) != path_identity((#[trigger] now[b]).path) by {
                    assert(now[a].path == all[a].path && now[b].path == all[b].path);
                    assert(path_identity(all[a].path) != path_identity(all[b].path));
                }
            }
            return ;
        }
        if self.pending.len() >= RING_SIZE {
            let _ = self.pending.remove(0);
        }
        let ghost new = change@;
        let ghost rest = change_views(self.pending@);
        self.pending.push(change);
        proof {
            let now = change_views(self.pending@);
            assert(rest =~= if all.len() >= RING_SIZE {
                all.skip(1)
            } else {
                all
            });
            assert(now =~= rest.push(new));
            let shift: int = if all.len() >= RING_SIZE {
                1
            } else {
                0
            };
            assert forall|a: int, b: int| 0 <= a < b < now.len() implies path_identity(
                (#[trigger] now[a]).path,
            ) != path_identity((#[trigger] now[b]).path) by {
                assert(now[a] == all[a + shift]);
                if b < rest.len() {
                    assert(now[b] == all[b + shift]);
                }
            }
        }
    }

    /// Take everything that waits.
    pub fn drain(&mut self) -> (r: Vec<FileChange>)
        requires
            old(self).wf(),
        ensures
            final(self).wf(),
            r@ == old(self).pending@,
            final(self).pending@.len() == 0,
    {
        let mut out: Vec<FileChange> = Vec::new();
        std::mem::swap(&mut out, &mut self.pending);
        out
    }
}

/// The change that a log event makes known, of a file that was created or modified.
pub fn log_change(
    created: bool,
    path: String,
    size_bytes: u64,
    timestamp: Moment,
    event: LogEvent,
) -> (r: FileChange)
    ensures
        r.path == path,
        r.kind@ == (if created {
            "created"@
        } else {
            "modified"@
        }),
        r.size_bytes == size_bytes,
        r.timestamp == timestamp,
        r.log_event == Some(event),
{
    let kind = if created {
        "created".to_owned()
    } else {
        "modified".to_owned()
    };
    FileChange { path, kind, size_bytes, timestamp, log_event: Some(event) }
}

// ── Directories ───────────────────────────────────────────────────────────────

/// Whether a directory is one of the listed ones.
pub open spec fn listed_dir(dirs: Seq<Seq<char>>, dir: Seq<char>) -> bool {
    exists|i: int|
        0 <= i < dirs.len() && path_identity(#[trigger] dirs[i]) == path_identity(dir)
}

/// The directories without repeats, each where it first stood.
pub open spec fn distinct_dirs(dirs: Seq<Seq<char>>) -> Seq<Seq<char>>
    decreases dirs.len(),
{
    if dirs.len() == 0 {
        Seq::empty()
    } else {
        let before = distinct_dirs(dirs.drop_last());
        if listed_dir(before, dirs.last()) {
            before
        } else {
            before.push(dirs.last())
        }
    }
}

/// Whether two lists name the same directories, in any order and however often.
pub open spec fn same_dirs(a: Seq<Seq<char>>, b: Seq<Seq<char>>) -> bool {
    &&& forall|i: int| 0 <= i < a.len() ==> listed_dir(b, #[trigger] a[i])
    &&& forall|i: int| 0 <= i < b.len() ==> listed_dir(a, #[trigger] b[i])
}

/// Whether a directory is one of the listed ones.
pub fn is_listed_dir(dirs: &Vec<String>, dir: &str) -> (r: bool)
    ensures
        r == listed_dir(views(dirs@), dir@),
{
    let ghost all = views(dirs@);
    let mut i: usize = 0;
    while i < dirs.len()
        invariant
            i <= dirs@.len(),
            all == views(dirs@),
            forall|k: int| 0 <= k < i ==> path_identity(#[trigger] all[k]) != path_identity(dir@),
        decreases dirs@.len() - i,
    {
        assert(all[i as int] == dirs@[i as int]@);
        if same_path(dirs[i].as_str(), dir) {
            return true;
        }
        i += 1;
    }
    false
}

/// The directories to watch, each once.
pub fn replacement_watch_dirs(directories: &Vec<String>) -> (r: Vec<String>)
    ensures
        views(r@) == distinct_dirs(views(directories@)),
{
    let ghost all = views(directories@);
    let mut out: Vec<String> = Vec::new();
    let mut i: usize = 0;
    assert(all.take(0) =~= Seq::<Seq<char>>::empty());
    assert(views(out@) =~= Seq::<Seq<char>>::empty());
    while i < directories.len()
        invariant
            i <= directories@.len(),
            all == views(directories@),
            views(out@) == distinct_dirs(all.take(i as int)),
        decreases directories@.len() - i,
    {
        assert(all.take(i + 1).drop_last() =~= all.take(i as int));
        assert(all.take(i + 1).last() == directories@[i as int]@);
        if !is_listed_dir(&out, directories[i].as_str()) {
            let dir = directories[i].clone();
            let ghost before = out@;
            out.push(dir);
            assert(views(out@) =~= views(before).push(dir@));
        }
        i += 1;
    }
    assert(all.take(all.len() as int) =~= all);
    out
}

/// Whether the watched directories actually changed, as opposed to being armed once more.
/// Only a real change justifies dropping what waits.
pub fn watched_set_changed(previous: &Vec<String>, next: &Vec<String>) -> (r: bool)
    ensures
        r == !same_dirs(views(previous@), views(next@)),
{
    let ghost a = views(previous@);
    let ghost b = views(next@);
    let mut i: usize = 0;
    while i < previous.len()
        invariant
            i <= previous@.len(),
            a == views(previous@),
            b == views(next@),
            forall|k: int| 0 <= k < i ==> listed_dir(b, #[trigger] a[k]),
        decreases previous@.len() - i,
    {
        assert(a[i as int] == previous@[i as int]@);
        if !is_listed_dir(next, previous[i].as_str()) {
            return true;
        }
        i += 1;
    }
    let mut j: usize = 0;
    while j < next.len()
        invariant
            j <= next@.len(),
            a == views(previous@),
            b == views(next@),
            forall|k: int| 0 <= k < j ==> listed_dir(a, #[trigger] b[k]),
        decreases next@.len() - j,
    {
        assert(b[j as int] == next@[j as int]@);
        if !is_listed_dir(previous, next[j].as_str()) {
            return true;
        }
        j += 1;
    }
    false
}

proof fn lemma_distinct_dirs(dirs: Seq<Seq<char>>, dir: Seq<char>)
    ensures
        listed_dir(distinct_dirs(dirs), dir) <==> listed_dir(dirs, dir),
    decreases dirs.len(),
{
    if dirs.len() > 0 {
        let last = dirs.last();
        let before = distinct_dirs(dirs.drop_last());
        let all = distinct_dirs(dirs);
        lemma_distinct_dirs(dirs.drop_last(), dir);
        lemma_distinct_dirs(dirs.drop_last(), last);
        if listed_dir(dirs, dir) {
            let i = choose|i: int|
                0 <= i < dirs.len() && path_identity(#[trigger] dirs[i]) == path_identity(dir);
            if i < dirs.len() - 1 {
                assert(path_identity(dirs.drop_last()[i]) == path_identity(dir));
                assert(listed_dir(before, dir));
                let j = choose|j: int|
                    0 <= j < before.len() && path_identity(#[trigger] before[j]) == path_identity(
                        dir,
                    );
                assert(path_identity(all[j]) == path_identity(dir));
            } else if listed_dir(before, last) {
                let j = choose|j: int|
                    0 <= j < before.len() && path_identity(#[trigger] before[j]) == path_identity(
                        last,
                    );
                assert(path_identity(all[j]) == path_identity(dir));
            } else {
                assert(path_identity(all[before.len() as int]) == path_identity(dir));
            }
        }
        if listed_dir(all, dir) {
            let j = choose|j: int|
                0 <= j < all.len() && path_identity(#[trigger] all[j]) == path_identity(dir);
            if j < before.len() {
                assert(path_identity(before[j]) == path_identity(dir));
                assert(listed_dir(dirs.drop_last(), dir));
                let i = choose|i: int|
                    0 <= i < dirs.drop_last().len() && path_identity(
                        #[trigger] dirs.drop_last()[i],
                    ) == path_identity(dir);
                assert(path_identity(dirs[i]) == path_identity(dir));
            } else {
                assert(path_identity(dirs[dirs.len() - 1]) == path_identity(dir));
            }
        }
    }
}

/// Sending the same directories again, in any order and with repeats, is no change.
pub proof fn sending_the_same_directories_again_is_no_change(
    sent: Seq<Seq<char>>,
    again: Seq<Seq<char>>,
)
    requires
        same_dirs(sent, again),
    ensures
        same_dirs(distinct_dirs(sent), distinct_dirs(again)),
{
    let x = distinct_dirs(sent);
    let y = distinct_dirs(again);
    assert forall|i: int| 0 <= i < x.len() implies listed_dir(y, #[trigger] x[i]) by {
        assert(path_identity(x[i]) == path_identity(x[i]));
        assert(listed_dir(x, x[i]));
        lemma_distinct_dirs(sent, x[i]);
        let k = choose|k: int|
            0 <= k < sent.len() && path_identity(#[trigger] sent[k]) == path_identity(x[i]);
        assert(listed_dir(again, sent[k]));
        let m = choose|m: int|
            0 <= m < again.len() && path_identity(#[trigger] again[m]) == path_identity(sent[k]);
        assert(path_identity(again[m]) == path_identity(x[i]));
        assert(listed_dir(again, x[i]));
        lemma_distinct_dirs(again, x[i]);
    }
    assert forall|i: int| 0 <= i < y.len() implies listed_dir(x, #[trigger] y[i]) by {
        assert(path_identity(y[i]) == path_identity(y[i]));
        assert(listed_dir(y, y[i]));
        lemma_distinct_dirs(again, y[i]);
        let k = choose|k: int|
            0 <= k < again.len() && path_identity(#[trigger] again[k]) == path_identity(y[i]);
        assert(listed_dir(sent, again[k]));
        let m = choose|m: int|
            0 <= m < sent.len() && path_identity(#[trigger] sent[m]) == path_identity(again[k]);
        assert(path_identity(sent[m]) == path_identity(y[i]));
        assert(listed_dir(sent, y[i]));
        lemma_distinct_dirs(sent, y[i]);
    }
}

/// Watch other directories from now on. Where they are not the same as before, what waits
/// and what is remembered belongs to another user, and is dropped; whether that is so.
pub fn replace_roots(
    watched: &mut Vec<String>,
    armed: Vec<String>,
    ring: &mut ChangeRing,
    memory: &mut LogMemory,
) -> (r: bool)
    requires
        old(ring).wf(),
        old(memory).wf(),
    ensures
        final(ring).wf(),
        final(memory).wf(),
        *final(watched) == armed,
        r == !same_dirs(views(old(watched)@), views(armed@)),
        r ==> final(ring).pending@.len() == 0 && final(memory)@ == Map::<FileId, FileModel>::empty(),
        !r ==> *final(ring) == *old(ring) && *final(memory) == *old(memory),
{
    let changed = watched_set_changed(watched, &armed);
    *watched = armed;
    if changed {
        *ring = ChangeRing::new();
        *memory = LogMemory::new();
    }
    changed
}

/// The directories of a user's profile that programs keep their logs under.
pub fn profile_watch_roots(profile: &str) -> (r: [String; 2])
    ensures
        r@[0]@ == joined_path(profile@, seq!["AppData"@, "Local"@]),
        r@[1]@ == joined_path(profile@, seq!["AppData"@, "Roaming"@]),
{
    let mut local: Vec<String> = Vec::new();
    local.push("AppData".to_owned());
    local.push("Local".to_owned());
    assert(views(local@) =~= seq!["AppData"@, "Local"@]);
    let mut roaming: Vec<String> = Vec::new();
    roaming.push("AppData".to_owned());
    roaming.push("Roaming".to_owned());
    assert(views(roaming@) =~= seq!["AppData"@, "Roaming"@]);
    [join_names(profile, &local), join_names(profile, &roaming)]
}

/// Where a machine without drive letters keeps its logs is the journal's business: there is
/// nothing to watch.
pub fn discover_watch_dirs(extra: &[String]) -> (r: Option<Vec<String>>)
    ensures
        r is Some,
        r->0@.len() == 0,
{
    Some(Vec::new())
}

/// The directories that logs are looked for under: those of the system, the data directory
/// of its programs, and those of the user's profile where it is known.
pub fn auto_watch_roots(
    system_drive: &str,
    program_data: Option<&str>,
    profile: Option<&str>,
) -> (r: Vec<String>)
    ensures
        views(r@) == system_roots(system_drive@) + seq![
            match program_data {
                Some(path) => path@,
                None => joined_path(system_drive@, seq!["ProgramData"@]),
            },
        ] + (match profile {
            Some(p) => seq![
                joined_path(p@, seq!["AppData"@, "Local"@]),
                joined_path(p@, seq!["AppData"@, "Roaming"@]),
            ],
            None => Seq::empty(),
        }),
{
    let mut roots: Vec<String> = Vec::new();
    let windows = join_one(system_drive, "Windows");
    roots.push(join_one(windows.as_str(), "Logs"));
    roots.push(join_one(windows.as_str(), "Temp"));
    roots.push(join_one(system_drive, "Temp"));
    roots.push(join_one(system_drive, "Logs"));
    assert(views(roots@) =~= system_roots(system_drive@));
    let ghost first = views(roots@);
    let data = match program_data {
        Some(path) => path.to_owned(),
        None => join_one(system_drive, "ProgramData"),
    };
    roots.push(data);
    assert(views(roots@) =~= first + seq![data@]);
    let ghost second = views(roots@);
    if let Some(p) = profile {
        let own = profile_watch_roots(p);
        roots.push(own[0].clone());
        roots.push(own[1].clone());
        assert(views(roots@) =~= second + seq![own@[0]@, own@[1]@]);
    } else {
        assert(second + Seq::<Seq<char>>::empty() =~= second);
    }
    roots
}

/// The system's own directories for logs and temporary files.
pub open spec fn system_roots(drive: Seq<char>) -> Seq<Seq<char>> {
    let windows = joined_path(drive, seq!["Windows"@]);
    seq![
        joined_path(windows, seq!["Logs"@]),
        joined_path(windows, seq!["Temp"@]),
        joined_path(drive, seq!["Temp"@]),
        joined_path(drive, seq!["Logs"@]),
    ]
}

fn join_one(base: &str, name: &str) -> (r: String)
    ensures
        r@ == joined_path(base@, seq![name@]),
{
    let mut names: Vec<String> = Vec::new();
    names.push(name.to_owned());
    assert(views(names@) =~= seq![name@]);
    join_names(base, &names)
}

/// How long to wait between two warnings that events were dropped, in nanoseconds.
pub const DROP_WARNING_EVERY: u64 = 10 * 60 * 1_000_000_000;

/// Whether to warn that events were dropped: some were, and no warning was given of late.
pub fn drop_warning_due(dropped: u64, last_warning: Option<u64>, now: u64) -> (r: bool)
    ensures
        r == (dropped > 0 && (match last_warning {
            Some(at) => now - at >= DROP_WARNING_EVERY,
            None => true,
        })),
{
    dropped > 0 && (match last_warning {
        Some(at) => now >= at && now - at >= DROP_WARNING_EVERY,
        None => true,
    })
}

// ── Locking a path ────────────────────────────────────────────────────────────

/// Why a path is not watched.
#[derive(Debug, Clone, Copy, PartialEq, Eq, Structural)]
pub enum GuardRefusal {
    /// It is not a plain path on this machine.
    NotLocal,
    /// It names no directory.
    TooBroad,
}

/// Whether a component may stand in a path that is watched.
pub open spec fn guardable(c: ComponentModel) -> bool {
    match c {
        ComponentModel::Prefix(kind, _) => kind.drive(),
        ComponentModel::ParentDir => false,
        _ => true,
    }
}

/// The components without those that say nothing.
pub open spec fn without_cur_dirs(comps: Seq<ComponentModel>) -> Seq<ComponentModel>
    decreases comps.len(),
{
    if comps.len() == 0 {
        Seq::empty()
    } else if comps.last() is CurDir {
        without_cur_dirs(comps.drop_last())
    } else {
        without_cur_dirs(comps.drop_last()).push(comps.last())
    }
}

/// The directories on the way, from the first to the last, each by its whole path.
pub open spec fn guard_dirs(comps: Seq<ComponentModel>) -> Seq<Seq<char>>
    decreases comps.len(),
{
    if comps.len() == 0 {
        Seq::empty()
    } else if comps.last() is Normal {
        guard_dirs(comps.drop_last()).push(rendered(without_cur_dirs(comps)))
    } else {
        guard_dirs(comps.drop_last())
    }
}

/// Whether every component may stand in a path that is watched.
pub open spec fn all_guardable(comps: Seq<ComponentModel>) -> bool {
    forall|i: int| 0 <= i < comps.len() ==> guardable(#[trigger] comps[i])
}

fn component_copy(c: &Component) -> (r: Component)
    ensures
        r@ == c@,
{
    match c {
        Component::Prefix(kind, s) => Component::Prefix(*kind, s.clone()),
        Component::RootDir => Component::RootDir,
        Component::CurDir => Component::CurDir,
        Component::ParentDir => Component::ParentDir,
        Component::Normal(s) => Component::Normal(s.clone()),
    }
}

/// The directories to hold on to, from the first to the last, so that none of them can be
/// swapped for another while a watch on the path is set up.
pub fn guard_steps(path: &str) -> (r: Result<Vec<String>, GuardRefusal>)
    ensures
        ({
            let comps = components(path@);
            match r {
                Ok(dirs) => all_guardable(comps) && views(dirs@) == guard_dirs(comps)
                    && dirs@.len() > 0,
                Err(GuardRefusal::NotLocal) => !all_guardable(comps),
                Err(GuardRefusal::TooBroad) => all_guardable(comps) && guard_dirs(comps).len() == 0,
            }
        }),
{
    let comps = parse_components(path);
    let ghost all = component_views(comps@);
    let mut current: Vec<Component> = Vec::new();
    let mut dirs: Vec<String> = Vec::new();
    let mut i: usize = 0;
    assert(all.take(0) =~= Seq::<ComponentModel>::empty());
    assert(component_views(current@) =~= Seq::<ComponentModel>::empty());
    assert(views(dirs@) =~= Seq::<Seq<char>>::empty());
    while i < comps.len()
        invariant
            i <= comps@.len(),
            all == component_views(comps@),
            all == components(path@),
            component_views(current@) == without_cur_dirs(all.take(i as int)),
            views(dirs@) == guard_dirs(all.take(i as int)),
            forall|k: int| 0 <= k < i ==> guardable(#[trigger] all[k]),
        decreases comps@.len() - i,
    {
        let ghost next = all.take(i + 1);
        assert(next.drop_last() =~= all.take(i as int));
        assert(next.last() == comps@[i as int]@);
        assert(all[i as int] == comps@[i as int]@);
        let allowed = match &comps[i] {
            Component::Prefix(kind, _) => kind.is_drive(),
            Component::ParentDir => false,
            _ => true,
        };
        if !allowed {
            assert(!guardable(all[i as int]));
            return Err(GuardRefusal::NotLocal);
        }
        if !matches!(&comps[i], Component::CurDir) {
            let c = component_copy(&comps[i]);
            let ghost before = current@;
            current.push(c);
            assert(component_views(current@) =~= component_views(before).push(c@));
        }
        if matches!(&comps[i], Component::Normal(_)) {
            let dir = render(&current);
            let ghost before = dirs@;
            dirs.push(dir);
            assert(views(dirs@) =~= views(before).push(dir@));
        }
        i += 1;
    }
    assert(all.take(all.len() as int) =~= all);
    assert(views(dirs@).len() == dirs@.len());
    if dirs.len() == 0 {
        Err(GuardRefusal::TooBroad)
    } else {
        Ok(dirs)
    }
}

/// Whether a file's attributes are those of a plain directory: a directory, and no reparse
/// point.
pub fn is_plain_directory(attributes: u32) -> (r: bool)
    ensures
        r == (attributes & 0x400 == 0 && attributes & 0x10 != 0),
{
    attributes & 0x400 == 0 && attributes & 0x10 != 0
}

/// Whether a file's attributes are those of a plain file with one name: neither a reparse
/// point nor a directory.
pub fn is_single_link_file(attributes: u32, links: u32) -> (r: bool)
    ensures
        r == (attributes & 0x400 == 0 && attributes & 0x10 == 0 && links == 1),
{
    attributes & 0x400 == 0 && attributes & 0x10 == 0 && links == 1
}

// ── What the watcher promises ─────────────────────────────────────────────────

/// The extensions that are read, and that no structured or binary file is among them.
pub proof fn logs_and_nothing_else_are_read(ext: Seq<char>)
    ensures
        text_extension("log"@) && text_extension("txt"@) && text_extension("err"@)
            && text_extension("out"@) && text_extension("trace"@) && text_extension("debug"@)
            && text_extension("warn"@) && text_extension("error"@) && text_extension("info"@),
        text_extension(ext) ==> 3 <= ext.len() <= 5,
        !text_extension("json"@) && !text_extension("xml"@) && !text_extension("exe"@)
            && !text_extension("dll"@) && !text_extension("db"@),
{
    reveal_strlit("log");
    reveal_strlit("txt");
    reveal_strlit("err");
    reveal_strlit("out");
    reveal_strlit("trace");
    reveal_strlit("debug");
    reveal_strlit("warn");
    reveal_strlit("error");
    reveal_strlit("info");
    reveal_strlit("json");
    reveal_strlit("xml");
    reveal_strlit("exe");
    reveal_strlit("dll");
    reveal_strlit("db");
    assert("json"@[0] == 'j' && "warn"@[0] == 'w' && "info"@[0] == 'i');
    assert("xml"@[0] == 'x' && "exe"@[0] == 'e' && "dll"@[0] == 'd' && "exe"@[1] == 'x');
    assert("log"@[0] == 'l' && "txt"@[0] == 't' && "err"@[0] == 'e' && "err"@[1] == 'r'
        && "out"@[0] == 'o');
    assert("db"@.len() == 2 && "json"@.len() == 4 && "xml"@.len() == 3);
    assert("trace"@.len() == 5 && "debug"@.len() == 5 && "error"@.len() == 5 && "warn"@.len() == 4
        && "info"@.len() == 4);
}

/// A file is read exactly where its extension, in any case, is that of a log and none of the
/// directories that it stands in is the service's own or the user's for temporary files.
pub proof fn candidate_is_a_log_outside_the_ignored(path: Seq<char>, i: int)
    ensures
        log_candidate(path) ==> path_extension(path) is Some && text_extension(
            ascii_lowercase(path_extension(path)->0),
        ) && has_parent(components(path)),
        ({
            let dirs = names(components(path).drop_last());
            &&& log_candidate(path) && 0 <= i < dirs.len() ==> unicode_lowercase(dirs[i])
                != "eir"@ && unicode_lowercase(dirs[i]) != "co.swatto.eir"@
                && !"eir-"@.is_prefix_of(unicode_lowercase(dirs[i]))
            &&& log_candidate(path) && 0 <= i && i + 2 < dirs.len() ==> !(unicode_lowercase(dirs[i])
                == "appdata"@ && unicode_lowercase(dirs[i + 1]) == "local"@ && unicode_lowercase(
                dirs[i + 2],
            ) == "temp"@)
        }),
{
    let comps = components(path).drop_last();
    let dirs = names(comps);
    let parts = dirs.map_values(|n: Seq<char>| unicode_lowercase(n));
    if log_candidate(path) {
        if 0 <= i < dirs.len() {
            assert(!own_name(parts[i]));
        }
        if 0 <= i && i + 2 < dirs.len() {
            assert(!temp_at(parts, i));
        }
    }
}

/// A log outside of the ignored directories is read.
pub proof fn log_outside_the_ignored_is_read(path: Seq<char>)
    requires
        path_extension(path) is Some,
        text_extension(ascii_lowercase(path_extension(path)->0)),
        has_parent(components(path)),
        ({
            let dirs = names(components(path).drop_last());
            &&& forall|i: int|
                0 <= i < dirs.len() ==> unicode_lowercase(#[trigger] dirs[i]) != "eir"@
                    && unicode_lowercase(dirs[i]) != "co.swatto.eir"@
                    && !"eir-"@.is_prefix_of(unicode_lowercase(dirs[i]))
            &&& forall|i: int|
                0 <= i < dirs.len() ==> unicode_lowercase(#[trigger] dirs[i]) != "temp"@
        }),
    ensures
        log_candidate(path),
{
    let dirs = names(components(path).drop_last());
    let parts = dirs.map_values(|n: Seq<char>| unicode_lowercase(n));
    assert forall|i: int| 0 <= i < parts.len() implies !own_name(#[trigger] parts[i]) by {
        assert(parts[i] == unicode_lowercase(dirs[i]));
    }
    assert forall|i: int| 0 <= i && i + 2 < parts.len() implies !#[trigger] temp_at(parts, i) by {
        assert(parts[i + 2] == unicode_lowercase(dirs[i + 2]));
    }
}

/// What wakes the watcher: a log that was created or written, and a failure of the watch; an
/// access, a removal or a change to any other file does not.
pub proof fn written_logs_wake_the_watcher(paths: Vec<String>, i: int)
    ensures
        0 <= i < paths@.len() && log_candidate(paths@[i]@) ==> worthy(WatchEvent::Created(paths))
            && worthy(WatchEvent::Modified(paths)),
        (forall|k: int| 0 <= k < paths@.len() ==> !log_candidate((#[trigger] paths@[k])@))
            ==> !worthy(WatchEvent::Created(paths)) && !worthy(WatchEvent::Modified(paths)),
        !worthy(WatchEvent::Other(paths)),
        worthy(WatchEvent::Failed),
{
}

/// A directory entry is a log written of late only where it is a file, was written after the
/// cut-off and has a log's extension, and where it is all of these it is one.
pub proof fn late_logs_are_files_written_after_the_cutoff(
    is_file: bool,
    path: Seq<char>,
    modified: Option<u64>,
    cutoff: u64,
)
    ensures
        recent_log(is_file, path, modified, cutoff) ==> is_file && modified is Some && modified->0
            > cutoff,
        is_file && modified is Some && modified->0 > cutoff && path_extension(path) is Some
            && text_extension(unicode_lowercase(path_extension(path)->0)) ==> recent_log(
            is_file,
            path,
            modified,
            cutoff,
        ),
        path_extension(path) is Some && !text_extension(
            unicode_lowercase(path_extension(path)->0),
        ) ==> !recent_log(is_file, path, modified, cutoff),
{
}

/// What is consumed of a read ends after its last line feed: a line feed stands there, and none
/// after it. Where a read began inside a line, that line's end is not taken.
pub proof fn read_is_consumed_up_to_its_last_line_feed(
    bytes: Seq<u8>,
    fragment: Seq<u8>,
    rest: Seq<u8>,
)
    requires
        forall|k: int| 0 <= k < fragment.len() ==> fragment[k] != 10u8,
    ensures
        0 <= consumed(bytes) <= bytes.len(),
        consumed(bytes) > 0 ==> bytes[consumed(bytes) - 1] == 10u8,
        forall|k: int| consumed(bytes) <= k < bytes.len() ==> bytes[k] != 10u8,
        taken(bytes, false) == bytes.take(consumed(bytes)),
        taken(fragment.push(10u8) + rest, true) == taken(rest, false),
{
    lemma_consumed_is(bytes);
    let all = fragment.push(10u8) + rest;
    let f = fragment.len() as int;
    two_reads_take_the_same_as_one(fragment.push(10u8), rest);
    lemma_consumed_at(fragment.push(10u8), f + 1);
    assert(all.skip(f + 1) =~= rest);
    let whole = all.take(consumed(all));
    lemma_consumed_is(rest);
    assert(consumed(all) == f + 1 + consumed(rest));
    whole.index_of_first_ensures(10u8);
    assert(whole[f] == 10u8);
    assert forall|k: int| 0 <= k < f implies whole[k] != 10u8 by {
        assert(whole[k] == fragment[k]);
    }
    assert(after_first_line(whole) == f + 1);
    assert(whole.skip(f + 1) =~= rest.take(consumed(rest)));
}

/// Only a line of interest is reported.
pub proof fn only_lines_of_interest_are_reported(
    before: Map<FileId, FileModel>,
    id: FileId,
    lines: Seq<Seq<char>>,
    k: int,
    now: u64,
    picked: Seq<bool>,
    after: Map<FileId, FileModel>,
    i: int,
)
    requires
        sightings(before, id, lines, k, now, picked, after),
        0 <= i < k,
        picked[i],
    ensures
        line_rank(lines[i]) > 0,
    decreases k,
{
    if i < k - 1 {
        if line_rank(lines[k - 1]) > 0 {
            let mid = choose|mid: Map<FileId, FileModel>|
                sightings(before, id, lines, k - 1, now, picked, mid) && #[trigger] sighted(
                    mid,
                    id,
                    signature_of(lines[k - 1]),
                    now,
                    picked[k - 1],
                    after,
                );
            only_lines_of_interest_are_reported(before, id, lines, k - 1, now, picked, mid, i);
        } else {
            only_lines_of_interest_are_reported(before, id, lines, k - 1, now, picked, after, i);
        }
    }
}

/// A merged log event is of the same program and file, has the severity of one of the two, and
/// holds the excerpts of the older one followed by those of the newer, as far as five go; it
/// keeps the older one's text unless there is none.
pub proof fn merged_event_holds_both(old: LogEventModel, new: LogEventModel)
    requires
        old.error_snippets.len() <= 5,
    ensures
        ({
            let m = merged_event(old, new);
            let n = if old.error_snippets.len() + new.error_snippets.len() <= 5 {
                (old.error_snippets.len() + new.error_snippets.len()) as int
            } else {
                5
            };
            &&& m.program == old.program && m.log_path == old.log_path
            &&& m.severity == old.severity || m.severity == new.severity
            &&& rank_of_severity(new.severity) > rank_of_severity(old.severity) ==> m.severity
                == new.severity
            &&& rank_of_severity(new.severity) <= rank_of_severity(old.severity) ==> m.severity
                == old.severity
            &&& m.error_snippets == (old.error_snippets + new.error_snippets).take(n)
            &&& old.content_excerpt.len() > 0 ==> m.content_excerpt == old.content_excerpt
            &&& old.content_excerpt.len() == 0 ==> m.content_excerpt == new.content_excerpt
        }),
{
    let n = if old.error_snippets.len() + new.error_snippets.len() <= 5 {
        (old.error_snippets.len() + new.error_snippets.len()) as int
    } else {
        5
    };
    assert(merged_event(old, new).error_snippets =~= (old.error_snippets + new.error_snippets).take(
        n,
    ));
}

/// A merged change is to the same file and tells what the newer one says of it; no log event is
/// lost.
pub proof fn merged_change_is_the_newer_one(into: FileChangeModel, newer: FileChangeModel)
    ensures
        ({
            let m = merged_change(into, newer);
            &&& m.path == into.path
            &&& m.kind == newer.kind && m.size_bytes == newer.size_bytes && m.timestamp
                == newer.timestamp
            &&& newer.log_event is None ==> m.log_event == into.log_event
            &&& into.log_event is None ==> m.log_event == newer.log_event
            &&& into.log_event is Some && newer.log_event is Some ==> m.log_event is Some
        }),
{
}

/// A change to a file that has one waiting is folded into that one, and every other waits as it
/// did; a change to another file is added at the end, and only where fifty wait does the oldest
/// make room.
pub proof fn change_waits_with_its_file(
    pending: Seq<FileChangeModel>,
    change: FileChangeModel,
    i: int,
)
    requires
        one_per_file(pending),
        pending.len() <= 50,
    ensures
        0 <= i < pending.len() && path_identity(pending[i].path) == path_identity(change.path)
            ==> noted(pending, change) == pending.update(i, merged_change(pending[i], change)),
        (forall|k: int|
            0 <= k < pending.len() ==> path_identity((#[trigger] pending[k]).path)
                != path_identity(change.path)) ==> noted(pending, change) == (if pending.len()
            < 50 {
            pending.push(change)
        } else {
            pending.skip(1).push(change)
        }),
{
    lemma_pending_at(pending, change.path);
}

/// The directories to watch are those that were given, each once: none is left out, none is
/// added, and no two are the same.
pub proof fn each_directory_is_watched_once(dirs: Seq<Seq<char>>)
    ensures
        forall|i: int| 0 <= i < dirs.len() ==> listed_dir(distinct_dirs(dirs), #[trigger] dirs[i]),
        forall|i: int|
            0 <= i < distinct_dirs(dirs).len() ==> dirs.contains(
                #[trigger] distinct_dirs(dirs)[i],
            ),
        forall|i: int, j: int|
            0 <= i < j < distinct_dirs(dirs).len() ==> path_identity(
                #[trigger] distinct_dirs(dirs)[i],
            ) != path_identity(#[trigger] distinct_dirs(dirs)[j]),
    decreases dirs.len(),
{
    if dirs.len() > 0 {
        let rest = dirs.drop_last();
        each_directory_is_watched_once(rest);
        let before = distinct_dirs(rest);
        let after = distinct_dirs(dirs);
        assert forall|i: int| 0 <= i < dirs.len() implies listed_dir(after, #[trigger] dirs[i]) by {
            if i < rest.len() {
                assert(rest[i] == dirs[i]);
                assert(listed_dir(before, rest[i]));
                let k = choose|k: int|
                    0 <= k < before.len() && path_identity(#[trigger] before[k]) == path_identity(
                        rest[i],
                    );
                assert(after[k] == before[k]);
            } else if !listed_dir(before, dirs.last()) {
                assert(after[after.len() - 1] == dirs[i]);
            }
        }
        assert forall|i: int| 0 <= i < after.len() implies dirs.contains(#[trigger] after[i]) by {
            if i < before.len() {
                assert(after[i] == before[i]);
                assert(rest.contains(before[i]));
                let k = choose|k: int| 0 <= k < rest.len() && rest[k] == before[i];
                assert(dirs[k] == after[i]);
            } else {
                assert(dirs[dirs.len() - 1] == after[i]);
            }
        }
        assert forall|i: int, j: int| 0 <= i < j < after.len() implies path_identity(
            #[trigger] after[i],
        ) != path_identity(#[trigger] after[j]) by {
            if j < before.len() {
                assert(after[i] == before[i] && after[j] == before[j]);
            } else {
                assert(after[i] == before[i]);
                assert(!listed_dir(before, dirs.last()));
            }
        }
    }
}

/// A path that goes up, or that starts on another machine or a device, is not watched; the
/// directories that are held on to are one for each name of the path, the last of them the whole
/// path.
pub proof fn every_directory_on_the_way_is_held(comps: Seq<ComponentModel>, i: int)
    ensures
        0 <= i < comps.len() && comps[i] is ParentDir ==> !all_guardable(comps),
        0 <= i < comps.len() && comps[i] is Prefix && !comps[i]->Prefix_0.drive()
            ==> !all_guardable(comps),
        guard_dirs(comps).len() == names(comps).len(),
        without_cur_dirs(comps) == comps.filter(|c: ComponentModel| !(c is CurDir)),
        comps.len() > 0 && comps.last() is Normal ==> guard_dirs(comps).last() == rendered(
            comps.filter(|c: ComponentModel| !(c is CurDir)),
        ),
    decreases comps.len(),
{
    reveal(Seq::filter);
    if 0 <= i < comps.len() {
        assert(guardable(comps[i]) || !all_guardable(comps));
    }
    if comps.len() > 0 {
        every_directory_on_the_way_is_held(comps.drop_last(), -1);
    }
}

/// The same directories are the same in any order and however often each is listed; a directory
/// that only one list names makes them others.
pub proof fn lists_are_the_same_by_what_they_name(a: Seq<Seq<char>>, b: Seq<Seq<char>>, i: int)
    ensures
        same_dirs(a, b) == same_dirs(b, a),
        same_dirs(a, b) && 0 <= i < a.len() ==> exists|k: int|
            0 <= k < b.len() && path_identity(#[trigger] b[k]) == path_identity(a[i]),
        0 <= i < a.len() && (forall|k: int|
            0 <= k < b.len() ==> path_identity(#[trigger] b[k]) != path_identity(a[i]))
            ==> !same_dirs(a, b),
{
    if same_dirs(a, b) && 0 <= i < a.len() {
        assert(listed_dir(b, a[i]));
    }
}

/// A change of what is watched forgets what was noted and remembered; none leaves both.
pub proof fn other_roots_start_anew(
    watched: &mut Vec<String>,
    armed: Vec<String>,
    ring: &mut ChangeRing,
    memory: &mut LogMemory,
    r: bool,
)
    requires
        call_ensures(replace_roots, (watched, armed, ring, memory), r),
    ensures
        *final(watched) == armed,
        r <==> !same_dirs(views(old(watched)@), views(armed@)),
        r ==> final(ring).pending@.len() == 0 && final(memory)@ == Map::<FileId, FileModel>::empty(),
        !r ==> *final(ring) == *old(ring) && *final(memory) == *old(memory),
{
}

/// A file that is not to be read is neither read nor remembered; any other is read on from where
/// the last read stopped, at most 65,536 bytes of it.
pub proof fn file_is_read_on(
    path: &str,
    size: u64,
    memory: &mut LogMemory,
    now: u64,
    r: Option<ReadStart>,
)
    requires
        call_ensures(plan_read, (path, size, memory, now), r),
    ensures
        !readable(path@) ==> r is None && final(memory)@ == old(memory)@,
        readable(path@) && old(memory)@.contains_key(path_identity(path@)) ==> ({
            let at = old(memory)@[path_identity(path@)].read_to;
            &&& size == at ==> r is None
            &&& at < size && size - at <= 65_536 ==> r == Some(
                ReadStart { offset: at, mid_line: false },
            )
            &&& at < size && size - at > 65_536 ==> r is Some && r->0.offset + 65_536 == size
        }),
        readable(path@) && !old(memory)@.contains_key(path_identity(path@)) ==> (size > 65_536
            ==> r is Some && r->0.offset + 65_536 == size) && (0 < size <= 65_536 ==> r is Some
            && r->0.offset == 0),
{
    if readable(path@) && old(memory)@.contains_key(path_identity(path@)) {
        reading_goes_on_where_it_stopped(
            old(memory)@[path_identity(path@)].read_to,
            size,
            65_536,
        );
    }
    reading_goes_on_where_it_stopped(0, size, 65_536);
}

/// A change of a log is told by its file, its size and its time, with what was read of it.
pub proof fn change_is_told_by_its_file(
    created: bool,
    path: String,
    size: u64,
    at: Moment,
    event: LogEvent,
    r: FileChange,
)
    requires
        call_ensures(log_change, (created, path, size, at, event), r),
    ensures
        r.path == path && r.size_bytes == size && r.timestamp == at && r.log_event == Some(event),
        created ==> r.kind@ == "created"@,
        !created ==> r.kind@ == "modified"@,
{
}

/// What was noted is handed out once, in order.
pub proof fn changes_are_handed_out_once(ring: &mut ChangeRing, r: Vec<FileChange>)
    requires
        call_ensures(ChangeRing::drain, (ring,), r),
    ensures
        r@ == old(ring).pending@ && final(ring).pending@.len() == 0,
{
}

/// Dropped events are warned of, at once and then every ten minutes.
pub proof fn dropped_events_are_warned_of(dropped: u64, last: Option<u64>, now: u64, r: bool)
    requires
        call_ensures(drop_warning_due, (dropped, last, now), r),
    ensures
        dropped == 0 ==> !r,
        dropped > 0 && last is None ==> r,
        dropped > 0 && last is Some ==> (r <==> now - last->0 >= 600_000_000_000),
{
}

/// A plain directory is one and no reparse point; a plain file is neither and has one link.
pub proof fn plain_directories_and_files_are_told(attributes: u32, links: u32, a: bool, b: bool)
    requires
        call_ensures(is_plain_directory, (attributes,), a),
        call_ensures(is_single_link_file, (attributes, links), b),
    ensures
        a <==> attributes & 0x400 == 0 && attributes & 0x10 != 0,
        b <==> attributes & 0x400 == 0 && attributes & 0x10 == 0 && links == 1,
        a ==> !b,
{
}

/// A directory is held by way of every directory above it, and refused where the path is not a
/// plain local one or leads to nothing below a drive.
pub proof fn guarded_path_is_plain(path: &str, r: Result<Vec<String>, GuardRefusal>)
    requires
        call_ensures(guard_steps, (path,), r),
    ensures
        r is Ok <==> all_guardable(components(path@)) && guard_dirs(components(path@)).len() > 0,
        r matches Ok(dirs) ==> views(dirs@) == guard_dirs(components(path@)),
        r matches Err(GuardRefusal::NotLocal) ==> !all_guardable(components(path@)),
{
    if r is Ok {
        assert(views((r->Ok_0)@).len() == (r->Ok_0)@.len());
    }
}

/// The directories that are watched without being asked: those of the system and of programs, and
/// the active user's own two.
pub proof fn usual_roots_are_watched(
    drive: &str,
    program_data: Option<&str>,
    profile: Option<&str>,
    r: Vec<String>,
)
    requires
        call_ensures(auto_watch_roots, (drive, program_data, profile), r),
    ensures
        ({
            let v = views(r@);
            let windows = joined_path(drive@, seq!["Windows"@]);
            &&& v.len() >= 5
            &&& v[0] == joined_path(windows, seq!["Logs"@])
            &&& v[1] == joined_path(windows, seq!["Temp"@])
            &&& v[2] == joined_path(drive@, seq!["Temp"@])
            &&& v[3] == joined_path(drive@, seq!["Logs"@])
            &&& program_data is Some ==> v[4] == program_data->0@
            &&& program_data is None ==> v[4] == joined_path(drive@, seq!["ProgramData"@])
            &&& profile is None ==> v.len() == 5
            &&& profile is Some ==> v.len() == 7 && v[5] == joined_path(
                profile->0@,
                seq!["AppData"@, "Local"@],
            ) && v[6] == joined_path(profile->0@, seq!["AppData"@, "Roaming"@])
        }),
{
}

/// The service's own directories are told by their names in lower case.
pub proof fn own_directories_are_told_by_their_names(rest: Seq<char>, other: Seq<char>)
    ensures
        own_name("eir"@) && own_name("co.swatto.eir"@) && own_name("eir-"@ + rest),
        other.len() > 0 && other[0] != 'e' && other[0] != 'c' ==> !own_name(other),
        other.len() == 0 ==> !own_name(other),
{
    reveal_strlit("eir");
    reveal_strlit("co.swatto.eir");
    reveal_strlit("eir-");
    assert(("eir-"@ + rest).take(4) =~= "eir-"@);
    if "eir-"@.is_prefix_of(other) {
        assert(other.take(4)[0] == 'e');
    }
}

/// What is read of a file tells something where a line of interest is new in it, is remembered as
/// read, and leaves the other files alone.
pub proof fn absorbed_text_is_remembered_as_read(
    before: Map<FileId, FileModel>,
    path: Seq<char>,
    content: Seq<char>,
    read_to: u64,
    now: u64,
    mid: Map<FileId, FileModel>,
    picked: Seq<bool>,
    r: Option<LogEvent>,
    after: Map<FileId, FileModel>,
    i: int,
)
    requires
        absorbed(before, path, content, read_to, now, mid, picked, r, after),
    ensures
        picked.len() == lines(content).len(),
        (forall|k: int| 0 <= k < picked.len() ==> !#[trigger] picked[k]) ==> r is None,
        0 <= i < picked.len() && picked[i] && line_rank(lines(content)[i]) > 0 ==> r is Some,
        r matches Some(event) ==> event_of(event, path, content, picked),
{
    let all = lines(content);
    if r is Some {
        severity_is_the_highest_reported(r->0, path, content, picked);
    }
    nothing_is_said_of_unpicked_lines(all, picked);
    if 0 <= i < picked.len() && picked[i] && line_rank(all[i]) > 0 {
        picked_line_is_said(all, picked, i);
    }
}

/// Only plain local components may stand in a path that is watched.
pub proof fn guarded_components_are_plain(letter: char, text: Seq<char>)
    ensures
        guardable(ComponentModel::Normal(text)),
        guardable(ComponentModel::RootDir),
        guardable(ComponentModel::CurDir),
        !guardable(ComponentModel::ParentDir),
        guardable(ComponentModel::Prefix(PrefixKind::Disk(letter), text)),
        guardable(ComponentModel::Prefix(PrefixKind::VerbatimDisk(letter), text)),
        !guardable(ComponentModel::Prefix(PrefixKind::Unc, text)),
        !guardable(ComponentModel::Prefix(PrefixKind::VerbatimUnc, text)),
        !guardable(ComponentModel::Prefix(PrefixKind::Verbatim, text)),
        !guardable(ComponentModel::Prefix(PrefixKind::DeviceNs, text)),
{
}

} // verus!
