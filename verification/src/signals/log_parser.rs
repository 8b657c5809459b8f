//! Error and warning lines in the text of a log.

use crate::models::LogEvent;
use crate::paths::{component_views, components, parse_components, Component, ComponentModel};
use crate::text::{
    chars_of, contains, contains_text, ellipsize, ellipsized, join, joined, lemma_views_push,
    lines, lines_of, same, string_range, trim, trimmed, unicode_lowercase, views,
};
use vstd::prelude::*;
use vstd::string::*;

verus! {

/// Characters of a file's text that an excerpt shows.
pub const MAX_EXCERPT_CHARS: usize = 2500;

/// Error excerpts kept per log event.
pub const MAX_SNIPPETS: usize = 5;

/// Longest line kept in an excerpt.
pub const MAX_LINE_CHARS: usize = 300;

// ── Lines ─────────────────────────────────────────────────────────────────────

/// Whether a line, in lower case, speaks of an error.
pub open spec fn error_words(lower: Seq<char>) -> bool {
    ||| contains(lower, "error"@)
    ||| contains(lower, "fatal"@)
    ||| contains(lower, "critical"@)
    ||| contains(lower, "exception"@)
    ||| contains(lower, "crash"@)
    ||| contains(lower, "panic"@)
    ||| contains(lower, "unhandled"@)
    ||| contains(lower, "traceback"@)
    ||| contains(lower, "stack trace"@)
    ||| contains(lower, "access violation"@)
    ||| contains(lower, "segfault"@)
    ||| contains(lower, "corrupt"@)
    ||| contains(lower, "aborted"@)
}

/// Whether a line, in lower case, speaks of something worth a warning.
pub open spec fn warning_words(lower: Seq<char>) -> bool {
    ||| contains(lower, "warn"@)
    ||| contains(lower, "warning"@)
    ||| contains(lower, "deprecated"@)
    ||| contains(lower, "failed"@)
    ||| contains(lower, "failure"@)
    ||| contains(lower, "timeout"@)
    ||| contains(lower, "refused"@)
    ||| contains(lower, "denied"@)
    ||| contains(lower, "unavailable"@)
}

/// Whether a line, in lower case, speaks of an error that ended something.
pub open spec fn fatal_words(lower: Seq<char>) -> bool {
    ||| contains(lower, "fatal"@)
    ||| contains(lower, "critical"@)
    ||| contains(lower, "crash"@)
    ||| contains(lower, "access violation"@)
    ||| contains(lower, "aborted"@)
}

/// How severe a line is: 3 fatal, 2 an error, 1 a warning, 0 nothing of interest.
pub open spec fn line_rank(line: Seq<char>) -> int {
    let lower = unicode_lowercase(line);
    if fatal_words(lower) {
        3
    } else if error_words(lower) {
        2
    } else if warning_words(lower) {
        1
    } else {
        0
    }
}

fn has_error_words(lower: &str) -> (r: bool)
    ensures
        r == error_words(lower@),
{
    contains_text(lower, "error") || contains_text(lower, "fatal") || contains_text(
        lower,
        "critical",
    ) || contains_text(lower, "exception") || contains_text(lower, "crash") || contains_text(
        lower,
        "panic",
    ) || contains_text(lower, "unhandled") || contains_text(lower, "traceback") || contains_text(
        lower,
        "stack trace",
    ) || contains_text(lower, "access violation") || contains_text(lower, "segfault")
        || contains_text(lower, "corrupt") || contains_text(lower, "aborted")
}

fn has_warning_words(lower: &str) -> (r: bool)
    ensures
        r == warning_words(lower@),
{
    contains_text(lower, "warn") || contains_text(lower, "warning") || contains_text(
        lower,
        "deprecated",
    ) || contains_text(lower, "failed") || contains_text(lower, "failure") || contains_text(
        lower,
        "timeout",
    ) || contains_text(lower, "refused") || contains_text(lower, "denied") || contains_text(
        lower,
        "unavailable",
    )
}

fn has_fatal_words(lower: &str) -> (r: bool)
    ensures
        r == fatal_words(lower@),
{
    contains_text(lower, "fatal") || contains_text(lower, "critical") || contains_text(
        lower,
        "crash",
    ) || contains_text(lower, "access violation") || contains_text(lower, "aborted")
}

/// How severe a line is.
pub fn rank_of_line(line: &str) -> (r: u8)
    ensures
        r == line_rank(line@),
        r <= 3,
{
    let lower = line.to_lowercase();
    let text = lower.as_str();
    if has_fatal_words(text) {
        3
    } else if has_error_words(text) {
        2
    } else if has_warning_words(text) {
        1
    } else {
        0
    }
}

/// The token of a severity, by its rank.
pub open spec fn severity_name(rank: int) -> Seq<char> {
    if rank == 3 {
        "FATAL"@
    } else if rank == 2 {
        "ERROR"@
    } else if rank == 1 {
        "WARN"@
    } else {
        "INFO"@
    }
}

fn name_of_rank(rank: u8) -> (r: String)
    ensures
        r@ == severity_name(rank as int),
{
    if rank == 3 {
        "FATAL".to_owned()
    } else if rank == 2 {
        "ERROR".to_owned()
    } else if rank == 1 {
        "WARN".to_owned()
    } else {
        "INFO".to_owned()
    }
}

/// The rank of a severity token, 0 where it is none of the severe ones.
pub open spec fn rank_of_severity(severity: Seq<char>) -> int {
    if severity == "FATAL"@ {
        3
    } else if severity == "ERROR"@ {
        2
    } else if severity == "WARN"@ {
        1
    } else {
        0
    }
}

/// Rank of a severity token, for keeping the highest of several.
pub fn severity_rank(severity: &str) -> (r: u8)
    ensures
        r == rank_of_severity(severity@),
{
    if same(severity, "FATAL") {
        3
    } else if same(severity, "ERROR") {
        2
    } else if same(severity, "WARN") {
        1
    } else {
        0
    }
}

/// The token of a rank has that rank.
pub proof fn severity_names_rank(rank: int)
    requires
        0 <= rank <= 3,
    ensures
        rank_of_severity(severity_name(rank)) == rank,
{
    reveal_strlit("FATAL");
    reveal_strlit("ERROR");
    reveal_strlit("WARN");
    reveal_strlit("INFO");
    assert("FATAL"@[0] == 'F' && "ERROR"@[0] == 'E' && "WARN"@[0] == 'W' && "INFO"@[0] == 'I');
}

// ── Picking lines ─────────────────────────────────────────────────────────────

/// The highest rank among the picked lines.
pub open spec fn top_rank(lines: Seq<Seq<char>>, picked: Seq<bool>) -> int
    decreases lines.len(),
{
    if lines.len() == 0 || picked.len() != lines.len() {
        0
    } else {
        let before = top_rank(lines.drop_last(), picked.drop_last());
        if picked.last() && line_rank(lines.last()) > before {
            line_rank(lines.last())
        } else {
            before
        }
    }
}

/// Where the excerpt round line `i` starts: one line before it.
pub open spec fn window_start(i: int) -> int {
    if i > 0 {
        i - 1
    } else {
        0
    }
}

/// Where the excerpt round line `i` ends: after the two lines that follow it.
pub open spec fn window_end(i: int, count: int) -> int {
    if i + 3 < count {
        i + 3
    } else {
        count
    }
}

/// The picked lines that get an excerpt, among the first `k`: from the first on, each one
/// whose excerpt is clear of the one before it, up to the cap.
pub open spec fn excerpted(picked: Seq<bool>, k: int) -> Seq<int>
    decreases k,
{
    if k <= 0 {
        Seq::empty()
    } else {
        let before = excerpted(picked, k - 1);
        let i = k - 1;
        if picked[i] && before.len() < MAX_SNIPPETS && (before.len() == 0 || i > window_end(
            before.last(),
            picked.len() as int,
        )) {
            before.push(i)
        } else {
            before
        }
    }
}

/// A line as an excerpt shows it.
pub open spec fn clipped(line: Seq<char>) -> Seq<char> {
    ellipsized(line, MAX_LINE_CHARS as int)
}

/// The excerpt round line `i`.
pub open spec fn snippet(lines: Seq<Seq<char>>, i: int) -> Seq<char> {
    join(
        lines.subrange(window_start(i), window_end(i, lines.len() as int)).map_values(
            |l: Seq<char>| clipped(l),
        ),
        "\n"@,
    )
}

/// The excerpts of the picked lines.
pub open spec fn snippets(lines: Seq<Seq<char>>, picked: Seq<bool>) -> Seq<Seq<char>> {
    excerpted(picked, picked.len() as int).map_values(|i: int| snippet(lines, i))
}

/// No two excerpts share a line of the log.
pub proof fn excerpts_do_not_share_a_line(picked: Seq<bool>, a: int, b: int)
    requires
        0 <= a < b < excerpted(picked, picked.len() as int).len(),
    ensures
        window_end(excerpted(picked, picked.len() as int)[a], picked.len() as int) <= window_start(
            excerpted(picked, picked.len() as int)[b],
        ),
{
    lemma_excerpted_apart(picked, picked.len() as int, a, b);
}

proof fn lemma_excerpted_apart(picked: Seq<bool>, k: int, a: int, b: int)
    requires
        0 <= k <= picked.len(),
        0 <= a < b < excerpted(picked, k).len(),
    ensures
        window_end(excerpted(picked, k)[a], picked.len() as int) <= window_start(
            excerpted(picked, k)[b],
        ),
        0 <= excerpted(picked, k)[a] < excerpted(picked, k)[b] < k,
    decreases k,
{
    let n = picked.len() as int;
    let before = excerpted(picked, k - 1);
    if b < before.len() {
        lemma_excerpted_apart(picked, k - 1, a, b);
    } else if a < before.len() - 1 {
        lemma_excerpted_apart(picked, k - 1, a, before.len() - 1);
        lemma_excerpted_in_range(picked, k - 1, before.len() - 1);
    } else {
        lemma_excerpted_in_range(picked, k - 1, a);
    }
}

proof fn lemma_excerpted_in_range(picked: Seq<bool>, k: int, a: int)
    requires
        0 <= k <= picked.len(),
        0 <= a < excerpted(picked, k).len(),
    ensures
        0 <= excerpted(picked, k)[a] < k,
        picked[excerpted(picked, k)[a]],
    decreases k,
{
    let before = excerpted(picked, k - 1);
    if a < before.len() {
        lemma_excerpted_in_range(picked, k - 1, a);
    }
}

/// A line that was not picked, such as one already reported, is never the reason for an
/// excerpt.
pub proof fn only_picked_lines_are_excerpted(picked: Seq<bool>, a: int)
    requires
        0 <= a < excerpted(picked, picked.len() as int).len(),
    ensures
        picked[excerpted(picked, picked.len() as int)[a]],
{
    lemma_excerpted_in_range(picked, picked.len() as int, a);
}

/// Where nothing is picked, nothing is reported: no excerpt, and no severity.
pub proof fn nothing_picked_is_nothing_reported(lines: Seq<Seq<char>>, picked: Seq<bool>)
    requires
        lines.len() == picked.len(),
        forall|i: int| 0 <= i < picked.len() ==> !picked[i],
    ensures
        snippets(lines, picked).len() == 0,
        severity_name(top_rank(lines, picked)) == "INFO"@,
{
    lemma_nothing_picked(lines, picked);
    lemma_nothing_excerpted(picked, picked.len() as int);
}

proof fn lemma_nothing_picked(lines: Seq<Seq<char>>, picked: Seq<bool>)
    requires
        lines.len() == picked.len(),
        forall|i: int| 0 <= i < picked.len() ==> !picked[i],
    ensures
        top_rank(lines, picked) == 0,
    decreases lines.len(),
{
    if lines.len() > 0 {
        lemma_nothing_picked(lines.drop_last(), picked.drop_last());
    }
}

proof fn lemma_nothing_excerpted(picked: Seq<bool>, k: int)
    requires
        0 <= k <= picked.len(),
        forall|i: int| 0 <= i < picked.len() ==> !picked[i],
    ensures
        excerpted(picked, k).len() == 0,
    decreases k,
{
    if k > 0 {
        lemma_nothing_excerpted(picked, k - 1);
    }
}

/// The lines of an excerpt.
fn clip_line(line: &str) -> (r: String)
    ensures
        r@ == clipped(line@),
        r@.len() <= MAX_LINE_CHARS,
{
    ellipsize(line, MAX_LINE_CHARS)
}

fn snippet_at(lines: &Vec<String>, i: usize) -> (r: String)
    requires
        i < lines@.len(),
    ensures
        r@ == snippet(views(lines@), i as int),
{
    let count: usize = lines.len();
    let start: usize = if i > 0 {
        i - 1
    } else {
        0
    };
    let end: usize = if count - i > 3 {
        i + 3
    } else {
        count
    };
    let ghost all = views(lines@);
    let ghost clip = |l: Seq<char>| clipped(l);
    let ghost shown = all.subrange(start as int, end as int).map_values(clip);
    let mut parts: Vec<String> = Vec::new();
    let mut j: usize = start;
    assert(views(parts@) =~= shown.take(0));
    while j < end
        invariant
            start <= j <= end <= lines@.len(),
            all == views(lines@),
            clip == (|l: Seq<char>| clipped(l)),
            shown == all.subrange(start as int, end as int).map_values(clip),
            views(parts@) == shown.take(j - start),
        decreases end - j,
    {
        assert(all[j as int] == lines@[j as int]@);
        let part = clip_line(lines[j].as_str());
        assert(shown[j - start] == part@);
        proof {
            lemma_views_push(parts@, part);
        }
        parts.push(part);
        assert(views(parts@) =~= shown.take(j + 1 - start));
        j += 1;
    }
    assert(shown.take(shown.len() as int) =~= shown);
    joined(&parts, "\n")
}

/// The excerpts of the picked lines, and the highest severity among them.
pub fn extract_picked(lines: &Vec<String>, picked: &Vec<bool>) -> (r: (Vec<String>, String))
    requires
        lines@.len() == picked@.len(),
    ensures
        views(r.0@) == snippets(views(lines@), picked@),
        r.1@ == severity_name(top_rank(views(lines@), picked@)),
{
    let ghost all = views(lines@);
    let mut found: Vec<String> = Vec::new();
    let mut rank: u8 = 0;
    let mut last_end: Option<usize> = None;
    let mut i: usize = 0;
    let ghost f = |i: int| snippet(all, i);
    assert(all.take(0) =~= Seq::<Seq<char>>::empty());
    assert(views(found@) =~= excerpted(picked@, 0).map_values(f));
    while i < lines.len()
        invariant
            i <= lines@.len(),
            lines@.len() == picked@.len(),
            all == views(lines@),
            f == (|i: int| snippet(all, i)),
            rank == top_rank(all.take(i as int), picked@.take(i as int)),
            rank <= 3,
            views(found@) == excerpted(picked@, i as int).map_values(f),
            match last_end {
                Some(end) => excerpted(picked@, i as int).len() > 0 && end == window_end(
                    excerpted(picked@, i as int).last(),
                    picked@.len() as int,
                ),
                None => excerpted(picked@, i as int).len() == 0,
            },
        decreases lines@.len() - i,
    {
        let ghost chosen = excerpted(picked@, i as int);
        assert(all.take(i + 1).drop_last() =~= all.take(i as int));
        assert(picked@.take(i + 1).drop_last() =~= picked@.take(i as int));
        assert(all.take(i + 1).last() == lines@[i as int]@);
        assert(found@.len() == views(found@).len());
        if picked[i] {
            let line = rank_of_line(lines[i].as_str());
            if line > rank {
                rank = line;
            }
            let clear = match last_end {
                Some(end) => i > end,
                None => true,
            };
            if found.len() < MAX_SNIPPETS && clear {
                let text = snippet_at(lines, i);
                proof {
                    lemma_views_push(found@, text);
                }
                found.push(text);
                assert(views(found@) =~= chosen.push(i as int).map_values(f));
                let count: usize = lines.len();
                last_end = Some(
                    if count - i > 3 {
                        i + 3
                    } else {
                        count
                    },
                );
            }
        }
        i += 1;
    }
    assert(all.take(all.len() as int) =~= all);
    assert(picked@.take(picked@.len() as int) =~= picked@);
    (found, name_of_rank(rank))
}

/// What a filter answered for each line: of a line of interest whatever the filter says of
/// it, of any other line nothing.
pub open spec fn answered_by<F: Fn(&str) -> bool>(
    is_new: F,
    lines: Seq<Seq<char>>,
    picked: Seq<bool>,
) -> bool {
    &&& picked.len() == lines.len()
    &&& forall|i: int| 0 <= i < lines.len() ==> #[trigger] answered_at(is_new, lines[i], picked[i])
}

/// What a filter answered for one line.
pub open spec fn answered_at<F: Fn(&str) -> bool>(is_new: F, line: Seq<char>, picked: bool) -> bool {
    if line_rank(line) > 0 {
        exists|s: &str| #[trigger] s@ == line && is_new.ensures((s,), picked)
    } else {
        !picked
    }
}

/// Which lines to report: `is_new` is asked once per line of interest and answers whether
/// it has not been reported recently.
pub fn pick_new<F: Fn(&str) -> bool>(lines: &Vec<String>, is_new: &F) -> (r: Vec<bool>)
    requires
        forall|s: &str| #[trigger] is_new.requires((s,)),
    ensures
        answered_by(*is_new, views(lines@), r@),
{
    let ghost all = views(lines@);
    let mut picked: Vec<bool> = Vec::new();
    let mut i: usize = 0;
    while i < lines.len()
        invariant
            i <= lines@.len(),
            all == views(lines@),
            picked@.len() == i,
            forall|s: &str| #[trigger] is_new.requires((s,)),
            forall|k: int| 0 <= k < i ==> #[trigger] answered_at(*is_new, all[k], picked@[k]),
        decreases lines@.len() - i,
    {
        assert(all[i as int] == lines@[i as int]@);
        let line = lines[i].as_str();
        let pick = if rank_of_line(line) > 0 {
            let answer = is_new(line);
            assert(line@ == all[i as int] && is_new.ensures((line,), answer));
            answer
        } else {
            false
        };
        assert(answered_at(*is_new, all[i as int], pick));
        picked.push(pick);
        i += 1;
    }
    picked
}

/// The excerpts of a log's text and its severity, counting only the lines that `is_new`
/// says have not been reported.
pub fn extract_errors<F: Fn(&str) -> bool>(content: &str, is_new: &F) -> (r: (Vec<String>, String))
    requires
        forall|s: &str| #[trigger] is_new.requires((s,)),
    ensures
        exists|picked: Seq<bool>|
            #![trigger answered_by(*is_new, lines(content@), picked)]
            answered_by(*is_new, lines(content@), picked) && views(r.0@) == snippets(
                lines(content@),
                picked,
            ) && r.1@ == severity_name(top_rank(lines(content@), picked)),
{
    let all = lines_of(content);
    assert(views(all@).len() == all@.len());
    let picked = pick_new(&all, is_new);
    let r = extract_picked(&all, &picked);
    assert(answered_by(*is_new, lines(content@), picked@));
    r
}

// ── The program ───────────────────────────────────────────────────────────────

/// The names among a path's components.
pub open spec fn names(comps: Seq<ComponentModel>) -> Seq<Seq<char>>
    decreases comps.len(),
{
    if comps.len() == 0 {
        Seq::empty()
    } else {
        match comps.last() {
            ComponentModel::Normal(name) => names(comps.drop_last()).push(name),
            _ => names(comps.drop_last()),
        }
    }
}

/// The program that the name at position `i` leads to: the one that follows a directory
/// that programs keep their files under.
pub open spec fn program_at(names: Seq<Seq<char>>, i: int) -> Option<Seq<char>> {
    let lower = unicode_lowercase(names[i]);
    let above = if i > 0 {
        Some(unicode_lowercase(names[i - 1]))
    } else {
        None
    };
    if i + 1 >= names.len() {
        None
    } else if lower == "program files"@ || lower == "program files (x86)"@ || lower
        == "programdata"@ {
        Some(names[i + 1])
    } else if lower == "logs"@ && above == Some("windows"@) {
        Some("Windows "@ + names[i + 1])
    } else if (lower == "local"@ || lower == "roaming"@ || lower == "locallow"@) && above == Some(
        "appdata"@,
    ) {
        Some(names[i + 1])
    } else {
        None
    }
}

/// The first program that the names from position `i` on lead to.
pub open spec fn program_from(names: Seq<Seq<char>>, i: int) -> Option<Seq<char>>
    decreases names.len() - i,
{
    if i >= names.len() {
        None
    } else if program_at(names, i) is Some {
        program_at(names, i)
    } else {
        program_from(names, i + 1)
    }
}

/// The name of the directory that a path's file stands in.
pub open spec fn parent_name(comps: Seq<ComponentModel>) -> Option<Seq<char>> {
    let n = comps.len() as int;
    if n >= 2 && (comps[n - 1] is Normal || comps[n - 1] is CurDir || comps[n - 1] is ParentDir)
        && comps[n - 2] is Normal {
        Some(comps[n - 2]->Normal_0)
    } else {
        None
    }
}

/// The program that wrote a log, by the path of the log.
pub open spec fn program_of(path: Seq<char>) -> Seq<char> {
    let comps = components(path);
    match program_from(names(comps), 0) {
        Some(program) => program,
        None => match parent_name(comps) {
            Some(name) => name,
            None => "Unknown"@,
        },
    }
}

/// The names among a path's components.
pub fn component_names(comps: &Vec<Component>) -> (r: Vec<String>)
    ensures
        views(r@) == names(component_views(comps@)),
{
    let ghost all = component_views(comps@);
    let mut out: Vec<String> = Vec::new();
    let mut i: usize = 0;
    assert(all.take(0) =~= Seq::<ComponentModel>::empty());
    assert(views(out@) =~= Seq::<Seq<char>>::empty());
    while i < comps.len()
        invariant
            i <= comps@.len(),
            all == component_views(comps@),
            views(out@) == names(all.take(i as int)),
        decreases comps@.len() - i,
    {
        assert(all.take(i + 1).drop_last() =~= all.take(i as int));
        assert(all.take(i + 1).last() == comps@[i as int]@);
        if let Component::Normal(name) = &comps[i] {
            let copy = name.clone();
            proof {
                lemma_views_push(out@, copy);
            }
            out.push(copy);
        }
        i += 1;
    }
    assert(all.take(all.len() as int) =~= all);
    out
}

fn program_of_name(names: &Vec<String>, i: usize) -> (r: Option<String>)
    requires
        i < names@.len(),
    ensures
        match r {
            Some(program) => program_at(views(names@), i as int) == Some(program@),
            None => program_at(views(names@), i as int) is None,
        },
{
    let ghost all = views(names@);
    assert(all[i as int] == names@[i as int]@);
    if names.len() - i < 2 {
        return None;
    }
    assert(all[i + 1] == names@[i + 1]@);
    let lower = names[i].to_lowercase();
    let lower = lower.as_str();
    if same(lower, "program files") || same(lower, "program files (x86)") || same(
        lower,
        "programdata",
    ) {
        return Some(names[i + 1].clone());
    }
    if i == 0 {
        return None;
    }
    assert(all[i - 1] == names@[i - 1]@);
    let above = names[i - 1].to_lowercase();
    let above = above.as_str();
    if same(lower, "logs") && same(above, "windows") {
        let mut program = "Windows ".to_owned();
        program.append(names[i + 1].as_str());
        return Some(program);
    }
    if (same(lower, "local") || same(lower, "roaming") || same(lower, "locallow")) && same(
        above,
        "appdata",
    ) {
        return Some(names[i + 1].clone());
    }
    None
}

/// The program that wrote a log, by the path of the log.
pub fn extract_program(path: &str) -> (r: String)
    ensures
        r@ == program_of(path@),
{
    let comps = parse_components(path);
    let found = component_names(&comps);
    let ghost all = names(components(path@));
    assert(all.len() == found@.len());
    let mut i: usize = 0;
    while i < found.len()
        invariant
            i <= found@.len(),
            all == views(found@),
            all.len() == found@.len(),
            all == names(components(path@)),
            program_from(all, 0) == program_from(all, i as int),
        decreases found@.len() - i,
    {
        if let Some(program) = program_of_name(&found, i) {
            return program;
        }
        i += 1;
    }
    let ghost p = component_views(comps@);
    let n: usize = comps.len();
    if n >= 2 {
        assert(p[n - 1] == comps@[n - 1]@ && p[n - 2] == comps@[n - 2]@);
        let leaf = match &comps[n - 1] {
            Component::Normal(_) | Component::CurDir | Component::ParentDir => true,
            _ => false,
        };
        if leaf {
            if let Component::Normal(name) = &comps[n - 2] {
                return name.clone();
            }
        }
    }
    "Unknown".to_owned()
}

// ── The event ─────────────────────────────────────────────────────────────────

/// The start of a text, with a mark where it was cut.
pub open spec fn excerpt_of(content: Seq<char>) -> Seq<char> {
    let body = trim(content);
    if body.len() <= MAX_EXCERPT_CHARS {
        body
    } else {
        body.take(MAX_EXCERPT_CHARS as int) + "\n…[truncated]"@
    }
}

/// The start of a text, with a mark where it was cut.
pub fn excerpt(content: &str) -> (r: String)
    ensures
        r@ == excerpt_of(content@),
{
    let body = trimmed(content);
    let v = chars_of(body.as_str());
    if v.len() <= MAX_EXCERPT_CHARS {
        return body;
    }
    let mut head = string_range(&v, 0, MAX_EXCERPT_CHARS);
    assert(head@ =~= body@.take(MAX_EXCERPT_CHARS as int));
    head.append("\n…[truncated]");
    head
}

/// Whether a log event is what the picked lines of a log's text come to.
pub open spec fn event_of(
    event: LogEvent,
    path: Seq<char>,
    content: Seq<char>,
    picked: Seq<bool>,
) -> bool {
    &&& event.program@ == program_of(path)
    &&& event.log_path@ == path
    &&& event.severity@ == severity_name(top_rank(lines(content), picked))
    &&& views(event.error_snippets@) == snippets(lines(content), picked)
    &&& event.content_excerpt@ == excerpt_of(content)
}

/// The log event of a text, given which of its lines to report.
pub fn parse_picked(path: &str, content: &str, all: &Vec<String>, picked: &Vec<bool>) -> (r:
    LogEvent)
    requires
        views(all@) == lines(content@),
        all@.len() == picked@.len(),
    ensures
        event_of(r, path@, content@, picked@),
{
    let (error_snippets, severity) = extract_picked(all, picked);
    LogEvent {
        program: extract_program(path),
        log_path: path.to_owned(),
        severity,
        error_snippets,
        content_excerpt: excerpt(content),
    }
}

/// Parse newly read log text. `is_new` is asked once per line of interest and answers
/// whether that line has not been reported recently; repeats count toward neither the
/// severity nor the excerpts.
pub fn parse<F: Fn(&str) -> bool>(path: &str, content: &str, is_new: F) -> (r: LogEvent)
    requires
        forall|s: &str| #[trigger] is_new.requires((s,)),
    ensures
        exists|picked: Seq<bool>|
            #![trigger answered_by(is_new, lines(content@), picked)]
            answered_by(is_new, lines(content@), picked) && event_of(r, path@, content@, picked),
{
    let all = lines_of(content);
    assert(views(all@).len() == all@.len());
    let picked = pick_new(&all, &is_new);
    assert(answered_by(is_new, lines(content@), picked@));
    parse_picked(path, content, &all, &picked)
}

// ── What a log event promises ─────────────────────────────────────────────────

proof fn lemma_top_rank(lines: Seq<Seq<char>>, picked: Seq<bool>)
    requires
        lines.len() == picked.len(),
    ensures
        forall|i: int|
            0 <= i < lines.len() && picked[i] ==> line_rank(#[trigger] lines[i]) <= top_rank(
                lines,
                picked,
            ),
        (exists|i: int|
            0 <= i < lines.len() && picked[i] && line_rank(#[trigger] lines[i]) == top_rank(
                lines,
                picked,
            )) || (top_rank(lines, picked) == 0 && forall|i: int|
            0 <= i < lines.len() && picked[i] ==> line_rank(#[trigger] lines[i]) == 0),
        0 <= top_rank(lines, picked) <= 3,
    decreases lines.len(),
{
    if lines.len() > 0 {
        let l = lines.drop_last();
        let p = picked.drop_last();
        lemma_top_rank(l, p);
        let before = top_rank(l, p);
        let top = top_rank(lines, picked);
        assert(lines[lines.len() - 1] == lines.last());
        assert(picked[lines.len() - 1] == picked.last());
        assert forall|i: int| 0 <= i < lines.len() && picked[i] implies line_rank(
            #[trigger] lines[i],
        ) <= top by {
            if i < l.len() {
                assert(l[i] == lines[i] && p[i] == picked[i]);
            }
        }
        if exists|i: int| 0 <= i < l.len() && p[i] && line_rank(#[trigger] l[i]) == before {
            let i = choose|i: int| 0 <= i < l.len() && p[i] && line_rank(#[trigger] l[i]) == before;
            assert(lines[i] == l[i] && picked[i] == p[i]);
        } else {
            assert forall|i: int|
                0 <= i < lines.len() - 1 && picked[i] implies line_rank(#[trigger] lines[i]) == 0 by {
                assert(l[i] == lines[i] && p[i] == picked[i]);
            }
        }
    }
}

/// The severity of a log event is the highest of the lines that it reports: it ranks no lower
/// than any of them and as high as one of them, and there is none where no line is reported.
pub proof fn severity_is_the_highest_reported(
    event: LogEvent,
    path: Seq<char>,
    content: Seq<char>,
    picked: Seq<bool>,
)
    requires
        event_of(event, path, content, picked),
        picked.len() == lines(content).len(),
    ensures
        forall|i: int|
            0 <= i < picked.len() && picked[i] ==> line_rank(#[trigger] lines(content)[i])
                <= rank_of_severity(event.severity@),
        (exists|i: int| 0 <= i < picked.len() && #[trigger] picked[i]) ==> exists|i: int|
            0 <= i < picked.len() && picked[i] && line_rank(#[trigger] lines(content)[i])
                == rank_of_severity(event.severity@),
        (forall|i: int| 0 <= i < picked.len() ==> !#[trigger] picked[i]) ==> event.severity@
            == "INFO"@,
{
    let all = lines(content);
    let top = top_rank(all, picked);
    lemma_top_rank(all, picked);
    severity_names_rank(top);
    if exists|i: int| 0 <= i < picked.len() && #[trigger] picked[i] {
        let i = choose|i: int| 0 <= i < picked.len() && #[trigger] picked[i];
        assert(line_rank(all[i]) <= top);
        if top == 0 {
            assert(line_rank(all[i]) == 0);
        }
    }
    if forall|i: int| 0 <= i < picked.len() ==> !#[trigger] picked[i] {
        if exists|i: int|
            0 <= i < all.len() && picked[i] && line_rank(#[trigger] all[i]) == top {
            let i = choose|i: int|
                0 <= i < all.len() && picked[i] && line_rank(#[trigger] all[i]) == top;
            assert(!picked[i]);
        }
        assert(top == 0);
    }
}

/// The words that make a line worth reporting, in any case, and how severe each makes it.
pub proof fn words_make_a_line_severe(line: Seq<char>)
    ensures
        ({
            let lower = unicode_lowercase(line);
            &&& contains(lower, "fatal"@) ==> line_rank(line) == 3
            &&& contains(lower, "critical"@) ==> line_rank(line) == 3
            &&& contains(lower, "crash"@) ==> line_rank(line) == 3
            &&& contains(lower, "access violation"@) ==> line_rank(line) == 3
            &&& contains(lower, "aborted"@) ==> line_rank(line) == 3
            &&& contains(lower, "error"@) ==> line_rank(line) >= 2
            &&& contains(lower, "exception"@) ==> line_rank(line) >= 2
            &&& contains(lower, "panic"@) ==> line_rank(line) >= 2
            &&& contains(lower, "unhandled"@) ==> line_rank(line) >= 2
            &&& contains(lower, "traceback"@) ==> line_rank(line) >= 2
            &&& contains(lower, "stack trace"@) ==> line_rank(line) >= 2
            &&& contains(lower, "segfault"@) ==> line_rank(line) >= 2
            &&& contains(lower, "corrupt"@) ==> line_rank(line) >= 2
            &&& contains(lower, "warn"@) ==> line_rank(line) >= 1
            &&& contains(lower, "deprecated"@) ==> line_rank(line) >= 1
            &&& contains(lower, "failed"@) ==> line_rank(line) >= 1
            &&& contains(lower, "failure"@) ==> line_rank(line) >= 1
            &&& contains(lower, "timeout"@) ==> line_rank(line) >= 1
            &&& contains(lower, "refused"@) ==> line_rank(line) >= 1
            &&& contains(lower, "denied"@) ==> line_rank(line) >= 1
            &&& contains(lower, "unavailable"@) ==> line_rank(line) >= 1
        }),
{
}

/// A line without any of the words is not reported, and one without a word of an error is at
/// most a warning.
pub proof fn plain_line_is_not_severe(line: Seq<char>)
    ensures
        ({
            let lower = unicode_lowercase(line);
            let ended = contains(lower, "fatal"@) || contains(lower, "critical"@) || contains(
                lower,
                "crash"@,
            ) || contains(lower, "access violation"@) || contains(lower, "aborted"@);
            let error = contains(lower, "error"@) || contains(lower, "exception"@) || contains(
                lower,
                "panic"@,
            ) || contains(lower, "unhandled"@) || contains(lower, "traceback"@) || contains(
                lower,
                "stack trace"@,
            ) || contains(lower, "segfault"@) || contains(lower, "corrupt"@);
            let warning = contains(lower, "warn"@) || contains(lower, "deprecated"@) || contains(
                lower,
                "failed"@,
            ) || contains(lower, "failure"@) || contains(lower, "timeout"@) || contains(
                lower,
                "refused"@,
            ) || contains(lower, "denied"@) || contains(lower, "unavailable"@) || contains(
                lower,
                "warning"@,
            );
            &&& !ended ==> line_rank(line) <= 2
            &&& !ended && !error ==> line_rank(line) <= 1
            &&& !ended && !error && !warning ==> line_rank(line) == 0
        }),
{
}

/// The severities are told apart: each token has its rank, a fatal line before an error, an
/// error before a warning, a warning before all else.
pub proof fn severities_are_ranked(other: Seq<char>)
    ensures
        rank_of_severity("FATAL"@) == 3,
        rank_of_severity("ERROR"@) == 2,
        rank_of_severity("WARN"@) == 1,
        other != "FATAL"@ && other != "ERROR"@ && other != "WARN"@ ==> rank_of_severity(other)
            == 0,
{
    reveal_strlit("FATAL");
    reveal_strlit("ERROR");
    reveal_strlit("WARN");
    assert("FATAL"@[0] != "ERROR"@[0]);
    assert("FATAL"@[0] != "WARN"@[0]);
    assert("ERROR"@[0] != "WARN"@[0]);
}

/// Every reported line is shown: it is the reason for an excerpt, or it follows within three
/// lines of one that is, unless there are as many excerpts as are kept. The first reported
/// line is always the reason for one.
pub proof fn reported_lines_are_shown(picked: Seq<bool>, k: int, i: int)
    requires
        0 <= i < k <= picked.len(),
        picked[i],
    ensures
        excerpted(picked, k).len() == 5 || exists|a: int|
            0 <= a < excerpted(picked, k).len() && #[trigger] excerpted(picked, k)[a] <= i
                <= excerpted(picked, k)[a] + 3,
        (forall|j: int| 0 <= j < i ==> !#[trigger] picked[j]) ==> excerpted(picked, k).len() > 0
            && excerpted(picked, k)[0] == i,
        excerpted(picked, k).len() <= 5,
    decreases k,
{
    let before = excerpted(picked, k - 1);
    let after = excerpted(picked, k);
    lemma_excerpted_len(picked, k);
    lemma_excerpted_len(picked, k - 1);
    if i < k - 1 {
        reported_lines_are_shown(picked, k - 1, i);
        if after.len() < 5 {
            assert(before.len() < 5);
            let a = choose|a: int| 0 <= a < before.len() && #[trigger] before[a] <= i <= before[a] + 3;
            assert(after[a] == before[a]);
        }
        if forall|j: int| 0 <= j < i ==> !#[trigger] picked[j] {
            assert(after[0] == before[0]);
        }
    } else {
        if forall|j: int| 0 <= j < i ==> !#[trigger] picked[j] {
            lemma_nothing_before(picked, k - 1);
            assert(after[0] == i);
        }
        if after.len() < 5 {
            if before.len() > 0 && i <= window_end(before.last(), picked.len() as int) {
                lemma_excerpted_in_range(picked, k - 1, before.len() - 1);
                assert(after[before.len() - 1] == before.last());
                assert(after[before.len() - 1] <= i <= after[before.len() - 1] + 3);
            } else {
                assert(after[after.len() - 1] == i);
            }
        }
    }
}

proof fn lemma_nothing_before(picked: Seq<bool>, k: int)
    requires
        0 <= k <= picked.len(),
        forall|j: int| 0 <= j < k ==> !#[trigger] picked[j],
    ensures
        excerpted(picked, k).len() == 0,
    decreases k,
{
    if k > 0 {
        lemma_nothing_before(picked, k - 1);
    }
}

proof fn lemma_excerpted_len(picked: Seq<bool>, k: int)
    ensures
        excerpted(picked, k).len() <= 5,
    decreases k,
{
    if k > 0 {
        lemma_excerpted_len(picked, k - 1);
    }
}

/// An excerpt holds its line, one line before it and two after it, as far as there are such
/// lines, each as it stands in the log unless it is too long.
pub proof fn excerpt_is_the_lines_round_its_own(lines: Seq<Seq<char>>, i: int)
    requires
        0 <= i < lines.len(),
    ensures
        ({
            let from = if i > 0 {
                i - 1
            } else {
                0
            };
            let to = if i + 3 <= lines.len() {
                i + 3
            } else {
                lines.len() as int
            };
            let shown = Seq::new(
                (to - from) as nat,
                |k: int|
                    if lines[from + k].len() <= 300 {
                        lines[from + k]
                    } else {
                        lines[from + k].take(299).push('…')
                    },
            );
            snippet(lines, i) == join(shown, "\n"@)
        }),
{
    let from = window_start(i);
    let to = window_end(i, lines.len() as int);
    assert(lines.subrange(from, to).map_values(|l: Seq<char>| clipped(l)) =~= Seq::new(
        (to - from) as nat,
        |k: int|
            if lines[from + k].len() <= 300 {
                lines[from + k]
            } else {
                lines[from + k].take(299).push('…')
            },
    ));
}

/// Each excerpt is that of its line, in the order of the lines.
pub proof fn excerpts_are_of_their_lines(lines: Seq<Seq<char>>, picked: Seq<bool>, a: int)
    requires
        0 <= a < excerpted(picked, picked.len() as int).len(),
    ensures
        snippets(lines, picked).len() == excerpted(picked, picked.len() as int).len(),
        snippets(lines, picked)[a] == snippet(
            lines,
            excerpted(picked, picked.len() as int)[a],
        ),
{
}

/// The program of a log is the directory after the first one that programs keep their files
/// under: `Program Files`, `ProgramData`, or one of the three under `AppData`, in any case.
pub proof fn program_follows_its_place(names: Seq<Seq<char>>, i: int)
    requires
        0 <= i,
        i + 1 < names.len(),
        forall|k: int| 0 <= k < i ==> #[trigger] program_at(names, k) is None,
    ensures
        ({
            let here = unicode_lowercase(names[i]);
            let above = unicode_lowercase(names[i - 1]);
            &&& here == "program files"@ || here == "program files (x86)"@ || here
                == "programdata"@ ==> program_from(names, 0) == Some(names[i + 1])
            &&& i > 0 && above == "appdata"@ && (here == "local"@ || here == "roaming"@ || here
                == "locallow"@) ==> program_from(names, 0) == Some(names[i + 1])
            &&& i > 0 && above == "windows"@ && here == "logs"@ ==> program_from(names, 0) == Some(
                "Windows "@ + names[i + 1],
            )
        }),
        program_at(names, i) is Some ==> program_from(names, 0) == program_at(names, i),
{
    lemma_program_from(names, 0, i);
    reveal_strlit("logs");
    reveal_strlit("local");
    reveal_strlit("roaming");
    reveal_strlit("locallow");
    reveal_strlit("program files");
    reveal_strlit("program files (x86)");
    reveal_strlit("programdata");
    assert("logs"@.len() == 4 && "local"@.len() == 5 && "roaming"@.len() == 7 && "locallow"@.len()
        == 8);
    assert("program files"@.len() == 13 && "program files (x86)"@.len() == 19
        && "programdata"@.len() == 11);
}

proof fn lemma_program_from(names: Seq<Seq<char>>, from: int, i: int)
    requires
        0 <= from <= i < names.len(),
        forall|k: int| from <= k < i ==> #[trigger] program_at(names, k) is None,
    ensures
        program_at(names, i) is Some ==> program_from(names, from) == program_at(names, i),
    decreases i - from,
{
    if from < i {
        lemma_program_from(names, from + 1, i);
    }
}

/// The names of a path are its plain components, in order.
pub proof fn names_are_the_plain_components(comps: Seq<ComponentModel>)
    ensures
        names(comps) == comps.filter(|c: ComponentModel| c is Normal).map_values(
            |c: ComponentModel| c->Normal_0,
        ),
    decreases comps.len(),
{
    reveal(Seq::filter);
    if comps.len() > 0 {
        let before = comps.drop_last();
        names_are_the_plain_components(before);
        let plain = |c: ComponentModel| c is Normal;
        let name = |c: ComponentModel| c->Normal_0;
        if comps.last() is Normal {
            assert(comps.filter(plain) == before.filter(plain).push(comps.last()));
            assert(before.filter(plain).push(comps.last()).map_values(name)
                =~= before.filter(plain).map_values(name).push(comps.last()->Normal_0));
        }
    }
}

/// What is shown of a log's text is its start, without the white space around it, and says
/// where it was cut.
pub proof fn excerpt_is_the_start_of_the_text(content: Seq<char>)
    ensures
        trim(content).len() <= 2500 ==> excerpt_of(content) == trim(content),
        trim(content).len() > 2500 ==> excerpt_of(content).take(2500) == trim(content).take(2500)
            && excerpt_of(content).skip(2500) == "\n…[truncated]"@,
{
    if trim(content).len() > 2500 {
        assert(excerpt_of(content).take(2500) =~= trim(content).take(2500));
        assert(excerpt_of(content).skip(2500) =~= "\n…[truncated]"@);
    }
}

/// The severity of some picked lines is that of the most severe of them, wherever it stands.
pub proof fn most_severe_picked_line_counts(
    lines: &Vec<String>,
    picked: &Vec<bool>,
    r: (Vec<String>, String),
    i: int,
)
    requires
        call_ensures(extract_picked, (lines, picked), r),
        lines@.len() == picked@.len(),
    ensures
        0 <= i < lines@.len() && picked@[i] ==> line_rank(lines@[i]@) <= rank_of_severity(r.1@),
        rank_of_severity(r.1@) > 0 ==> exists|k: int|
            0 <= k < lines@.len() && picked@[k] && line_rank(views(lines@)[k])
                == rank_of_severity(r.1@),
{
    let all = views(lines@);
    lemma_top_rank(all, picked@);
    severity_names_rank(top_rank(all, picked@));
    if 0 <= i < lines@.len() && picked@[i] {
        assert(all[i] == lines@[i]@);
    }
}

/// Where no line is picked nothing is said: no excerpt, and the lowest severity.
pub proof fn nothing_is_said_of_unpicked_lines(lines: Seq<Seq<char>>, picked: Seq<bool>)
    requires
        lines.len() == picked.len(),
    ensures
        (forall|k: int| 0 <= k < picked.len() ==> !#[trigger] picked[k]) ==> snippets(
            lines,
            picked,
        ).len() == 0 && severity_name(top_rank(lines, picked)) == "INFO"@,
{
    if forall|k: int| 0 <= k < picked.len() ==> !#[trigger] picked[k] {
        lemma_top_rank(lines, picked);
        lemma_none_excerpted(picked, picked.len() as int);
    }
}

proof fn lemma_none_excerpted(picked: Seq<bool>, n: int)
    requires
        0 <= n <= picked.len(),
        forall|k: int| 0 <= k < picked.len() ==> !#[trigger] picked[k],
    ensures
        excerpted(picked, n).len() == 0,
    decreases n,
{
    if n > 0 {
        lemma_none_excerpted(picked, n - 1);
        assert(!picked[n - 1]);
    }
}

/// A picked line of interest gives some severity.
pub proof fn picked_line_is_said(lines: Seq<Seq<char>>, picked: Seq<bool>, i: int)
    requires
        lines.len() == picked.len(),
        0 <= i < lines.len(),
        picked[i],
        line_rank(lines[i]) > 0,
    ensures
        severity_name(top_rank(lines, picked)) != "INFO"@,
{
    lemma_top_rank(lines, picked);
    assert(line_rank(lines[i]) <= top_rank(lines, picked));
    severity_names_rank(top_rank(lines, picked));
    severities_are_ranked("INFO"@);
    reveal_strlit("FATAL");
    reveal_strlit("ERROR");
    reveal_strlit("WARN");
    reveal_strlit("INFO");
    assert("INFO"@[0] == 'I' && "FATAL"@[0] == 'F' && "ERROR"@[0] == 'E' && "WARN"@[0] == 'W');
}

/// A line of no interest is not picked, whatever the filter says; of a line of interest the filter
/// decides.
pub proof fn filter_decides_on_lines_of_interest<F: Fn(&str) -> bool>(
    is_new: F,
    lines: Seq<Seq<char>>,
    picked: Seq<bool>,
    i: int,
)
    requires
        answered_by(is_new, lines, picked),
        0 <= i < lines.len(),
    ensures
        picked.len() == lines.len(),
        line_rank(lines[i]) == 0 ==> !picked[i],
        line_rank(lines[i]) > 0 ==> exists|s: &str| #[trigger] s@ == lines[i] && is_new.ensures(
            (s,),
            picked[i],
        ),
{
    assert(answered_at(is_new, lines[i], picked[i]));
}

/// A log that no known place names a program for is named by the directory that it stands in.
pub proof fn directory_names_the_program(
    path: Seq<char>,
    comps: Seq<ComponentModel>,
    dir: Seq<char>,
    name: Seq<char>,
)
    requires
        components(path) == comps.push(ComponentModel::Normal(dir)).push(
            ComponentModel::Normal(name),
        ),
    ensures
        program_from(names(components(path)), 0) is None ==> program_of(path) == dir,
        program_from(names(components(path)), 0) is Some ==> program_of(path) == program_from(
            names(components(path)),
            0,
        )->0,
{
}

/// A log whose path names neither a program nor a directory is of an unknown program.
pub proof fn bare_log_is_of_an_unknown_program(path: Seq<char>, name: Seq<char>)
    requires
        components(path) == seq![ComponentModel::Normal(name)],
    ensures
        program_from(names(components(path)), 0) is None ==> program_of(path) == "Unknown"@,
{
}

} // verus!
