//! Errors on the user's screen, as the tray reports them: bounded, since their text is not
//! to be trusted, and without repeats.

use crate::models::{bool_text, text_of_bool, Moment, ScreenError};
use crate::paths::{is_separator, separator};
use crate::text::{
    ascii_lowercase, char_cap, chars_of, control_char, head, is_control_char, join, joined,
    keep_nonempty, nonempty, same, same_ignoring_ascii_case, split_by, split_on, string_range,
    unicode_lowercase, unicode_whitespace, words_by,
};
use vstd::prelude::*;
use vstd::string::*;
use vstd::utf8::*;

verus! {

/// Characters kept of the name of an application.
pub const MAX_APP_CHARS: usize = 120;

/// Characters kept of a title.
pub const MAX_TITLE_CHARS: usize = 200;

/// Characters kept of a text.
pub const MAX_TEXT_CHARS: usize = 1500;

/// Reports kept between two analyses; the oldest is dropped first.
pub const BUFFER_CAP: usize = 20;

/// The same message from the same application counts once in so many seconds.
pub const REPEAT_WINDOW_SECS: i64 = 10 * 60;

/// Reports remembered against repeats.
pub const SEEN_CAP: usize = 200;

/// What separates the words of a report: white space and control characters.
pub open spec fn blank(c: char) -> bool {
    unicode_whitespace(c) || control_char(c)
}

/// A text with its words one space apart, cut to `max` characters.
pub open spec fn cleaned(s: Seq<char>, max: int) -> Seq<char> {
    head(join(words_by(s, |c: char| blank(c)), " "@), max)
}

fn is_blank(c: char) -> (r: bool)
    ensures
        r == blank(c),
{
    c.is_whitespace() || is_control_char(c)
}

/// A text with its white space and control characters as single spaces, cut to a length.
pub fn clean(s: &str, max_chars: usize) -> (r: String)
    ensures
        r@ == cleaned(s@, max_chars as int),
        r@.len() <= max_chars,
{
    let ghost sep = |c: char| blank(c);
    let pieces = split_by(s, is_blank, Ghost(sep));
    let found = keep_nonempty(pieces);
    let text = joined(&found, " ");
    char_cap(text.as_str(), max_chars)
}

/// What follows the last separator of a path.
pub open spec fn leaf(path: Seq<char>) -> Seq<char>
    decreases path.len(),
{
    if path.len() == 0 || separator(path.last()) {
        Seq::empty()
    } else {
        leaf(path.drop_last()).push(path.last())
    }
}

fn leaf_of(path: &str) -> (r: String)
    ensures
        r@ == leaf(path@),
{
    let v = chars_of(path);
    let n: usize = v.len();
    let mut i: usize = n;
    let ghost s = path@;
    assert(s.take(n as int) =~= s);
    assert(leaf(s) =~= leaf(s.take(n as int)) + s.skip(n as int));
    while i > 0 && !is_separator(v[i - 1])
        invariant
            i <= n,
            n == v@.len(),
            v@ == s,
            leaf(s) == leaf(s.take(i as int)) + s.skip(i as int),
        ensures
            i <= n,
            leaf(s) == s.skip(i as int),
        decreases i,
    {
        assert(s.take(i as int).drop_last() =~= s.take(i - 1));
        assert(leaf(s.take(i - 1)).push(s[i - 1]) + s.skip(i as int) =~= leaf(s.take(i - 1))
            + s.skip(i - 1));
        i -= 1;
    }
    let r = string_range(&v, i, n);
    assert(r@ =~= s.skip(i as int));
    r
}

/// Why a report is not taken.
#[derive(Debug, Clone, Copy, PartialEq, Eq, Structural)]
pub enum ReportError {
    NoApplication,
    NoText,
}

impl ReportError {
    /// The error in words.
    pub open spec fn text(self) -> Seq<char> {
        match self {
            ReportError::NoApplication => "screen error has no application"@,
            ReportError::NoText => "screen error has no text"@,
        }
    }

    /// The error in words.
    pub fn message(self) -> (r: &'static str)
        ensures
            r@ == self.text(),
    {
        match self {
            ReportError::NoApplication => "screen error has no application",
            ReportError::NoText => "screen error has no text",
        }
    }
}

/// The text that is kept of a report: a hung window has none.
pub open spec fn kept_text(text: Seq<char>, hung: bool) -> Seq<char> {
    if hung {
        Seq::empty()
    } else {
        cleaned(text, MAX_TEXT_CHARS as int)
    }
}

/// Check and bound one report from the tray. The application is reduced to its file's
/// name, so that a path and the user's name in it go no further. A report needs an
/// application, and a title or a text unless a window hangs.
pub fn normalise(app: &str, title: &str, text: &str, hung: bool, at: Moment) -> (r: Result<
    ScreenError,
    ReportError,
>)
    ensures
        ({
            let name = cleaned(leaf(app@), MAX_APP_CHARS as int);
            let head = cleaned(title@, MAX_TITLE_CHARS as int);
            let body = kept_text(text@, hung);
            match r {
                Ok(e) => {
                    &&& name.len() > 0
                    &&& (hung || head.len() > 0 || body.len() > 0)
                    &&& e.timestamp == at
                    &&& e.app@ == name
                    &&& e.title@ == head
                    &&& e.text@ == body
                    &&& e.hung == hung
                },
                Err(ReportError::NoApplication) => name.len() == 0,
                Err(ReportError::NoText) => name.len() > 0 && !hung && head.len() == 0
                    && body.len() == 0,
            }
        }),
{
    let app_name = leaf_of(app);
    let app = clean(app_name.as_str(), MAX_APP_CHARS);
    if app.as_str().is_empty() {
        return Err(ReportError::NoApplication);
    }
    let title = clean(title, MAX_TITLE_CHARS);
    let text = if hung {
        String::new()
    } else {
        clean(text, MAX_TEXT_CHARS)
    };
    assert(text@ =~= kept_text(text@, true) || !hung);
    if !hung && title.as_str().is_empty() && text.as_str().is_empty() {
        return Err(ReportError::NoText);
    }
    Ok(ScreenError { timestamp: at, app, title, text, hung })
}

proof fn lemma_leaf_has_no_separator(path: Seq<char>)
    ensures
        forall|i: int| 0 <= i < leaf(path).len() ==> !separator(#[trigger] leaf(path)[i]),
    decreases path.len(),
{
    if path.len() > 0 && !separator(path.last()) {
        lemma_leaf_has_no_separator(path.drop_last());
        let before = leaf(path.drop_last());
        assert forall|i: int| 0 <= i < leaf(path).len() implies !separator(
            #[trigger] leaf(path)[i],
        ) by {
            if i < before.len() {
                assert(!separator(before[i]));
            }
        }
    }
}

/// No part of a path but its last name is kept of an application.
pub proof fn application_is_no_path(app: Seq<char>)
    ensures
        forall|i: int| 0 <= i < leaf(app).len() ==> !separator(#[trigger] leaf(app)[i]),
{
    lemma_leaf_has_no_separator(app);
}

// ── Reports waiting ───────────────────────────────────────────────────────────

/// What two reports are compared by.
pub open spec fn report_key(e: ScreenError) -> Seq<char> {
    unicode_lowercase(
        e.app@ + "|"@ + e.title@ + "|"@ + e.text@ + "|"@ + bool_text(e.hung),
    )
}

/// One remembered report: what it is compared by, and when it came.
pub type SeenModel = (Seq<char>, i64);

/// The remembered reports.
pub open spec fn seen_views(seen: Seq<(String, i64)>) -> Seq<SeenModel> {
    seen.map_values(|s: (String, i64)| (s.0@, s.1))
}

/// The remembered reports that still count, in order.
pub open spec fn counting(seen: Seq<SeenModel>, now: i64) -> Seq<SeenModel>
    decreases seen.len(),
{
    if seen.len() == 0 {
        Seq::empty()
    } else if now - seen.last().1 < REPEAT_WINDOW_SECS {
        counting(seen.drop_last(), now).push(seen.last())
    } else {
        counting(seen.drop_last(), now)
    }
}

/// Whether a report is among the remembered ones.
pub open spec fn is_known(seen: Seq<SeenModel>, key: Seq<char>) -> bool {
    exists|i: int| 0 <= i < seen.len() && (#[trigger] seen[i]).0 == key
}

/// A sequence with one more item, for which the first makes room at the cap.
pub open spec fn pushed<A>(s: Seq<A>, x: A, cap: int) -> Seq<A> {
    if s.len() >= cap {
        s.skip(1).push(x)
    } else {
        s.push(x)
    }
}

/// Whether a report is taken, given the ones that are remembered: no equal one still counts.
pub open spec fn takes(seen: Seq<SeenModel>, e: ScreenError) -> bool {
    !is_known(counting(seen, e.timestamp.secs), report_key(e))
}

/// The remembered reports after one more has come. One that is not taken is not remembered,
/// so that it puts nothing off.
pub open spec fn seen_after(seen: Seq<SeenModel>, e: ScreenError) -> Seq<SeenModel> {
    let recent = counting(seen, e.timestamp.secs);
    if takes(seen, e) {
        pushed(recent, (report_key(e), e.timestamp.secs), SEEN_CAP as int)
    } else {
        recent
    }
}

/// Reports waiting for the next analysis, and the memory against repeats.
pub struct ScreenErrorBuffer {
    pub pending: Vec<ScreenError>,
    pub seen: Vec<(String, i64)>,
}

impl ScreenErrorBuffer {
    /// Never more reports than the caps.
    pub open spec fn wf(self) -> bool {
        self.pending@.len() <= BUFFER_CAP && self.seen@.len() <= SEEN_CAP
    }

    /// Nothing waits and nothing is remembered.
    pub fn new() -> (r: ScreenErrorBuffer)
        ensures
            r.wf(),
            r.pending@.len() == 0,
            r.seen@.len() == 0,
    {
        ScreenErrorBuffer { pending: Vec::new(), seen: Vec::new() }
    }

    /// Queue a report. False, and nothing is queued, for a repeat inside the window.
    pub fn push(&mut self, e: ScreenError) -> (r: bool)
        requires
            old(self).wf(),
        ensures
            final(self).wf(),
            r == takes(seen_views(old(self).seen@), e),
            seen_views(final(self).seen@) == seen_after(seen_views(old(self).seen@), e),
            final(self).pending@ == (if r {
                pushed(old(self).pending@, e, BUFFER_CAP as int)
            } else {
                old(self).pending@
            }),
    {
        let now: i64 = e.timestamp.secs;
        let mut text = e.app.clone();
        text.append("|");
        text.append(e.title.as_str());
        text.append("|");
        text.append(e.text.as_str());
        text.append("|");
        text.append(text_of_bool(e.hung));
        let key = text.to_lowercase();
        let ghost all = seen_views(self.seen@);
        let mut kept: Vec<(String, i64)> = Vec::new();
        let mut known = false;
        let mut i: usize = 0;
        assert(all.take(0) =~= Seq::<SeenModel>::empty());
        assert(seen_views(kept@) =~= Seq::<SeenModel>::empty());
        while i < self.seen.len()
            invariant
                i <= self.seen@.len(),
                all == seen_views(self.seen@),
                kept@.len() <= i,
                seen_views(kept@) == counting(all.take(i as int), now),
                known == is_known(seen_views(kept@), key@),
            decreases self.seen@.len() - i,
        {
            assert(all.take(i + 1).drop_last() =~= all.take(i as int));
            assert(all.take(i + 1).last() == (self.seen@[i as int].0@, self.seen@[i as int].1));
            let at: i64 = self.seen[i].1;
            if now as i128 - (at as i128) < REPEAT_WINDOW_SECS as i128 {
                let k = self.seen[i].0.clone();
                let ghost before = seen_views(kept@);
                if same(k.as_str(), key.as_str()) {
                    known = true;
                }
                kept.push((k, at));
                proof {
                    let after = seen_views(kept@);
                    assert(after =~= before.push((k@, at)));
                    if is_known(before, key@) {
                        let j = choose|j: int|
                            0 <= j < before.len() && (#[trigger] before[j]).0 == key@;
                        assert(after[j].0 == key@);
                    }
                    assert(after[before.len() as int].0 == k@);
                    if is_known(after, key@) && k@ != key@ {
                        let j = choose|j: int|
                            0 <= j < after.len() && (#[trigger] after[j]).0 == key@;
                        assert(before[j].0 == key@);
                    }
                }
            }
            i += 1;
        }
        assert(all.take(all.len() as int) =~= all);
        self.seen = kept;
        if known {
            return false;
        }
        let ghost recent = seen_views(self.seen@);
        assert(recent.len() == self.seen@.len());
        if self.seen.len() >= SEEN_CAP {
            let _ = self.seen.remove(0);
        }
        self.seen.push((key, now));
        assert(seen_views(self.seen@) =~= pushed(recent, (key@, now), SEEN_CAP as int));
        let ghost waiting = self.pending@;
        if self.pending.len() >= BUFFER_CAP {
            let _ = self.pending.remove(0);
        }
        self.pending.push(e);
        assert(self.pending@ =~= pushed(waiting, e, BUFFER_CAP as int));
        true
    }

    /// Hand every queued report to an analysis, once.
    pub fn drain(&mut self) -> (r: Vec<ScreenError>)
        requires
            old(self).wf(),
        ensures
            final(self).wf(),
            r@ == old(self).pending@,
            final(self).pending@.len() == 0,
            final(self).seen@ == old(self).seen@,
    {
        let mut out: Vec<ScreenError> = Vec::new();
        std::mem::swap(&mut out, &mut self.pending);
        out
    }
}

proof fn lemma_counting_keeps(seen: Seq<SeenModel>, now: i64, i: int)
    requires
        0 <= i < seen.len(),
        now - seen[i].1 < REPEAT_WINDOW_SECS,
    ensures
        is_known(counting(seen, now), seen[i].0),
    decreases seen.len(),
{
    let all = counting(seen, now);
    if i == seen.len() - 1 {
        assert(all[all.len() - 1].0 == seen[i].0);
    } else {
        lemma_counting_keeps(seen.drop_last(), now, i);
        assert(seen.drop_last()[i] == seen[i]);
        let before = counting(seen.drop_last(), now);
        let j = choose|j: int| 0 <= j < before.len() && (#[trigger] before[j]).0 == seen[i].0;
        assert(all[j].0 == seen[i].0);
    }
}

/// A report that was taken is not taken again inside the window.
pub proof fn repeat_is_dropped_inside_the_window(
    recent: Seq<SeenModel>,
    key: Seq<char>,
    at: i64,
    now: i64,
)
    requires
        now - at < REPEAT_WINDOW_SECS,
    ensures
        is_known(counting(pushed(recent, (key, at), SEEN_CAP as int), now), key),
{
    let seen = pushed(recent, (key, at), SEEN_CAP as int);
    lemma_counting_keeps(seen, now, seen.len() - 1);
}

// ── The whole history ─────────────────────────────────────────────────────────

/// What happens to the buffer.
pub enum ScreenEvent {
    Report(ScreenError),
    Drained,
}

/// What is remembered after a history: what a report leaves, and handing the queue over
/// changes nothing.
pub open spec fn memory_after(history: Seq<ScreenEvent>) -> Seq<SeenModel>
    decreases history.len(),
{
    if history.len() == 0 {
        Seq::empty()
    } else {
        let before = memory_after(history.drop_last());
        match history.last() {
            ScreenEvent::Report(e) => seen_after(before, e),
            ScreenEvent::Drained => before,
        }
    }
}

/// Whether the event at a position of a history is a report that was taken.
pub open spec fn taken_at(history: Seq<ScreenEvent>, i: int) -> bool {
    match history[i] {
        ScreenEvent::Report(e) => takes(memory_after(history.take(i)), e),
        ScreenEvent::Drained => false,
    }
}

/// The reports of a history that were taken, in order.
pub open spec fn taken_reports(history: Seq<ScreenEvent>) -> Seq<SeenModel>
    decreases history.len(),
{
    if history.len() == 0 {
        Seq::empty()
    } else {
        let before = taken_reports(history.drop_last());
        match history.last() {
            ScreenEvent::Report(e) => if takes(memory_after(history.drop_last()), e) {
                before.push((report_key(e), e.timestamp.secs))
            } else {
                before
            },
            ScreenEvent::Drained => before,
        }
    }
}

/// Whether no report of a history is older than one that came before it.
pub open spec fn in_time_order(history: Seq<ScreenEvent>) -> bool {
    forall|i: int, j: int|
        0 <= i < j < history.len() && history[i] is Report && history[j] is Report ==> (
        #[trigger] history[i])->Report_0.timestamp.secs <= (
        #[trigger] history[j])->Report_0.timestamp.secs
}

/// Whether a report of a history that was taken is equal to `e` and came less than the
/// window before it.
pub open spec fn repeats_a_taken_one(history: Seq<ScreenEvent>, e: ScreenError) -> bool {
    exists|i: int|
        0 <= i < history.len() && #[trigger] taken_at(history, i) && report_key(
            history[i]->Report_0,
        ) == report_key(e) && e.timestamp.secs - history[i]->Report_0.timestamp.secs
            < REPEAT_WINDOW_SECS
}

/// Whether the remembered reports are in the order of their times.
spec fn timed(seen: Seq<SeenModel>) -> bool {
    forall|i: int, j: int| 0 <= i < j < seen.len() ==> (#[trigger] seen[i]).1 <= (
    #[trigger] seen[j]).1
}

proof fn lemma_counting_is_a_tail(seen: Seq<SeenModel>, now: i64)
    requires
        timed(seen),
    ensures
        counting(seen, now).len() <= seen.len(),
        counting(seen, now) == seen.skip(seen.len() - counting(seen, now).len()),
    decreases seen.len(),
{
    if seen.len() > 0 {
        let before = seen.drop_last();
        lemma_counting_is_a_tail(before, now);
        let k = counting(before, now).len() as int;
        if now - seen.last().1 < REPEAT_WINDOW_SECS {
            assert(counting(seen, now) =~= seen.skip(seen.len() - k - 1));
        } else {
            if k > 0 {
                lemma_counted(before, now, k - 1);
                assert(counting(before, now)[k - 1] == before[before.len() - 1]);
                assert(seen[before.len() - 1].1 <= seen[before.len() as int].1);
            }
            assert(counting(seen, now) =~= seen.skip(seen.len() as int));
        }
    } else {
        assert(counting(seen, now) =~= seen.skip(0));
    }
}

proof fn lemma_counted(seen: Seq<SeenModel>, now: i64, k: int)
    requires
        0 <= k < counting(seen, now).len(),
    ensures
        now - counting(seen, now)[k].1 < REPEAT_WINDOW_SECS,
        exists|i: int| 0 <= i < seen.len() && #[trigger] seen[i] == counting(seen, now)[k],
    decreases seen.len(),
{
    if seen.len() > 0 {
        let before = counting(seen.drop_last(), now);
        if k < before.len() {
            lemma_counted(seen.drop_last(), now, k);
            let i = choose|i: int|
                0 <= i < seen.drop_last().len() && #[trigger] seen.drop_last()[i] == before[k];
            assert(seen[i] == counting(seen, now)[k]);
        } else {
            assert(seen[seen.len() - 1] == counting(seen, now)[k]);
        }
    }
}

/// Of a tail of what was taken, as many still count as the tail is long, or as count at all.
proof fn lemma_counting_of_a_tail(seen: Seq<SeenModel>, m: int, now: i64)
    requires
        timed(seen),
        0 <= m <= seen.len(),
    ensures
        counting(seen.skip(seen.len() - m), now).len() == (if m < counting(seen, now).len() {
            m
        } else {
            counting(seen, now).len() as int
        }),
    decreases seen.len(),
{
    let tail = seen.skip(seen.len() - m);
    lemma_counting_is_a_tail(seen, now);
    if m > 0 {
        let before = seen.drop_last();
        assert(tail.drop_last() =~= before.skip(before.len() - (m - 1)));
        assert(tail.last() == seen.last());
        lemma_counting_of_a_tail(before, m - 1, now);
        if !(now - seen.last().1 < REPEAT_WINDOW_SECS) {
            let k = counting(before, now).len() as int;
            lemma_counting_is_a_tail(before, now);
            if k > 0 {
                lemma_counted(before, now, k - 1);
                assert(counting(before, now)[k - 1] == before[before.len() - 1]);
                assert(seen[before.len() - 1].1 <= seen[before.len() as int].1);
            }
        }
    } else {
        assert(tail =~= Seq::<SeenModel>::empty());
    }
}

/// Later, no more of what was taken counts.
proof fn lemma_counting_shrinks(seen: Seq<SeenModel>, now: i64, later: i64)
    requires
        now <= later,
    ensures
        counting(seen, later).len() <= counting(seen, now).len(),
    decreases seen.len(),
{
    if seen.len() > 0 {
        lemma_counting_shrinks(seen.drop_last(), now, later);
    }
}

/// What a history leaves: the newest of what was taken, as many as counted at its last
/// report and fit.
proof fn lemma_memory(history: Seq<ScreenEvent>, now: i64)
    requires
        in_time_order(history),
        forall|i: int|
            0 <= i < history.len() && (#[trigger] history[i]) is Report
                ==> history[i]->Report_0.timestamp.secs <= now,
    ensures
        timed(taken_reports(history)),
        forall|i: int|
            0 <= i < taken_reports(history).len() ==> (#[trigger] taken_reports(history)[i]).1
                <= now,
        memory_after(history).len() <= taken_reports(history).len(),
        memory_after(history) == taken_reports(history).skip(
            taken_reports(history).len() - memory_after(history).len(),
        ),
        memory_after(history).len() >= counting(taken_reports(history), now).len()
            || memory_after(history).len() >= SEEN_CAP,
        memory_after(history).len() <= SEEN_CAP,
    decreases history.len(),
{
    let all = taken_reports(history);
    let kept = memory_after(history);
    if history.len() == 0 {
        assert(kept =~= all.skip(0));
    } else {
        let earlier = history.drop_last();
        assert forall|i: int, j: int|
            0 <= i < j < earlier.len() && earlier[i] is Report && earlier[j] is Report implies (
        #[trigger] earlier[i])->Report_0.timestamp.secs <= (
        #[trigger] earlier[j])->Report_0.timestamp.secs by {
            assert(history[i] == earlier[i] && history[j] == earlier[j]);
        }
        match history.last() {
            ScreenEvent::Drained => {
                assert forall|i: int|
                    0 <= i < earlier.len() && (
                    #[trigger] earlier[i]) is Report implies earlier[i]->Report_0.timestamp.secs
                    <= now by {
                    assert(history[i] == earlier[i]);
                }
                lemma_memory(earlier, now);
            },
            ScreenEvent::Report(e) => {
                let at = e.timestamp.secs;
                assert(history[history.len() - 1] == history.last());
                assert forall|i: int|
                    0 <= i < earlier.len() && (
                    #[trigger] earlier[i]) is Report implies earlier[i]->Report_0.timestamp.secs
                    <= at by {
                    assert(history[i] == earlier[i]);
                    assert(history[i]->Report_0.timestamp.secs <= history[history.len()
                        - 1]->Report_0.timestamp.secs);
                }
                lemma_memory(earlier, at);
                lemma_report(earlier, e, now);
                assert(earlier.push(ScreenEvent::Report(e)) =~= history);
            },
        }
    }
}

proof fn lemma_report(earlier: Seq<ScreenEvent>, e: ScreenError, now: i64)
    requires
        e.timestamp.secs <= now,
        timed(taken_reports(earlier)),
        forall|i: int|
            0 <= i < taken_reports(earlier).len() ==> (#[trigger] taken_reports(earlier)[i]).1
                <= e.timestamp.secs,
        memory_after(earlier).len() <= taken_reports(earlier).len(),
        memory_after(earlier) == taken_reports(earlier).skip(
            taken_reports(earlier).len() - memory_after(earlier).len(),
        ),
        memory_after(earlier).len() >= counting(taken_reports(earlier), e.timestamp.secs).len()
            || memory_after(earlier).len() >= SEEN_CAP,
        memory_after(earlier).len() <= SEEN_CAP,
    ensures
        ({
            let history = earlier.push(ScreenEvent::Report(e));
            let all = taken_reports(history);
            let kept = memory_after(history);
            &&& timed(all)
            &&& forall|i: int| 0 <= i < all.len() ==> (#[trigger] all[i]).1 <= now
            &&& kept.len() <= all.len()
            &&& kept == all.skip(all.len() - kept.len())
            &&& kept.len() >= counting(all, now).len() || kept.len() >= SEEN_CAP
            &&& kept.len() <= SEEN_CAP
        }),
{
    let history = earlier.push(ScreenEvent::Report(e));
    assert(history.drop_last() =~= earlier);
    let at = e.timestamp.secs;
    let before = taken_reports(earlier);
    let had = memory_after(earlier);
    let recent = counting(had, at);
    let all = taken_reports(history);
    let kept = memory_after(history);
    let key = report_key(e);
    lemma_counting_of_a_tail(before, had.len() as int, at);
    assert(timed(had));
    lemma_counting_is_a_tail(had, at);
    assert(recent =~= before.skip(before.len() - recent.len()));
    lemma_counting_shrinks(all, at, now);
    if takes(had, e) {
        assert(all == before.push((key, at)));
        assert(all.drop_last() =~= before);
        assert(kept =~= all.skip(all.len() - kept.len()));
        assert(counting(all, at).len() == counting(before, at).len() + 1);
    } else {
        assert(all == before);
    }
}

proof fn lemma_taken_listed(history: Seq<ScreenEvent>, i: int)
    requires
        0 <= i < history.len(),
        taken_at(history, i),
    ensures
        exists|k: int|
            0 <= k < taken_reports(history).len() && #[trigger] taken_reports(history)[k] == (
                report_key(history[i]->Report_0),
                history[i]->Report_0.timestamp.secs,
            ),
    decreases history.len(),
{
    let earlier = history.drop_last();
    let all = taken_reports(history);
    let before = taken_reports(earlier);
    if i == history.len() - 1 {
        assert(history.take(i) =~= earlier);
        assert(all[all.len() - 1] == (
            report_key(history[i]->Report_0),
            history[i]->Report_0.timestamp.secs,
        ));
    } else {
        assert(earlier.take(i) =~= history.take(i));
        lemma_taken_listed(earlier, i);
        let k = choose|k: int|
            0 <= k < before.len() && #[trigger] before[k] == (
                report_key(earlier[i]->Report_0),
                earlier[i]->Report_0.timestamp.secs,
            );
        assert(all[k] == before[k]);
    }
}

proof fn lemma_listed_taken(history: Seq<ScreenEvent>, k: int)
    requires
        0 <= k < taken_reports(history).len(),
    ensures
        exists|i: int|
            0 <= i < history.len() && #[trigger] taken_at(history, i) && taken_reports(history)[k]
                == (report_key(history[i]->Report_0), history[i]->Report_0.timestamp.secs),
    decreases history.len(),
{
    let earlier = history.drop_last();
    let before = taken_reports(earlier);
    if k < before.len() {
        lemma_listed_taken(earlier, k);
        let i = choose|i: int|
            0 <= i < earlier.len() && #[trigger] taken_at(earlier, i) && before[k] == (
                report_key(earlier[i]->Report_0),
                earlier[i]->Report_0.timestamp.secs,
            );
        assert(earlier.take(i) =~= history.take(i));
        assert(taken_at(history, i));
    } else {
        let i = history.len() - 1;
        assert(history.take(i) =~= earlier);
        assert(taken_at(history, i));
    }
}

/// The same message counts once in a window, over the whole history of the buffer: a report
/// is refused exactly where an equal one was taken less than the window before it, whether or
/// not that one has been handed over since. Reports that were refused put nothing off. The
/// reports come in the order of their times, and no more of the taken ones count than are
/// remembered.
pub proof fn message_counts_once_in_a_window(history: Seq<ScreenEvent>, e: ScreenError)
    requires
        in_time_order(history.push(ScreenEvent::Report(e))),
        counting(taken_reports(history), e.timestamp.secs).len() <= SEEN_CAP,
    ensures
        takes(memory_after(history), e) <==> !repeats_a_taken_one(history, e),
{
    let now = e.timestamp.secs;
    let full = history.push(ScreenEvent::Report(e));
    let key = report_key(e);
    assert forall|i: int, j: int|
        0 <= i < j < history.len() && history[i] is Report && history[j] is Report implies (
    #[trigger] history[i])->Report_0.timestamp.secs <= (
    #[trigger] history[j])->Report_0.timestamp.secs by {
        assert(full[i] == history[i] && full[j] == history[j]);
    }
    assert forall|i: int| 0 <= i < history.len() && (#[trigger] history[i]) is Report implies history[
        i]->Report_0.timestamp.secs <= now by {
        assert(full[i] == history[i]);
        assert(full[full.len() - 1] == ScreenEvent::Report(e));
        assert(full[i]->Report_0.timestamp.secs <= full[full.len() - 1]->Report_0.timestamp.secs);
    }
    lemma_memory(history, now);
    let all = taken_reports(history);
    let kept = memory_after(history);
    let recent = counting(kept, now);
    lemma_counting_of_a_tail(all, kept.len() as int, now);
    lemma_counting_is_a_tail(all, now);
    assert(timed(kept));
    lemma_counting_is_a_tail(kept, now);
    assert(recent =~= counting(all, now));
    if is_known(recent, key) {
        let j = choose|j: int| 0 <= j < recent.len() && (#[trigger] recent[j]).0 == key;
        lemma_counted(all, now, j);
        let k = choose|k: int| 0 <= k < all.len() && #[trigger] all[k] == recent[j];
        lemma_listed_taken(history, k);
        let i = choose|i: int|
            0 <= i < history.len() && #[trigger] taken_at(history, i) && all[k] == (
                report_key(history[i]->Report_0),
                history[i]->Report_0.timestamp.secs,
            );
        assert(taken_at(history, i));
    }
    if repeats_a_taken_one(history, e) {
        let i = choose|i: int|
            0 <= i < history.len() && #[trigger] taken_at(history, i) && report_key(
                history[i]->Report_0,
            ) == key && now - history[i]->Report_0.timestamp.secs < REPEAT_WINDOW_SECS;
        lemma_taken_listed(history, i);
        let k = choose|k: int|
            0 <= k < all.len() && #[trigger] all[k] == (
                report_key(history[i]->Report_0),
                history[i]->Report_0.timestamp.secs,
            );
        lemma_counting_keeps(all, now, k);
    }
}

/// A report with the same application, title and text as one that was taken less than the
/// window before it is held back, whatever characters they hold and whatever happened in
/// between.
pub proof fn identical_report_is_held_back(history: Seq<ScreenEvent>, i: int, e: ScreenError)
    requires
        in_time_order(history.push(ScreenEvent::Report(e))),
        counting(taken_reports(history), e.timestamp.secs).len() <= SEEN_CAP,
        0 <= i < history.len(),
        taken_at(history, i),
        history[i]->Report_0.app@ == e.app@,
        history[i]->Report_0.title@ == e.title@,
        history[i]->Report_0.text@ == e.text@,
        history[i]->Report_0.hung == e.hung,
        e.timestamp.secs - history[i]->Report_0.timestamp.secs < REPEAT_WINDOW_SECS,
    ensures
        !takes(memory_after(history), e),
{
    message_counts_once_in_a_window(history, e);
    assert(report_key(history[i]->Report_0) == report_key(e));
}

/// Whether a text holds no bar, which the parts of a key are kept apart by.
pub open spec fn without_bars(s: Seq<char>) -> bool {
    forall|i: int| 0 <= i < s.len() ==> #[trigger] s[i] != '|'
}

proof fn lemma_first_part(x: Seq<char>, y: Seq<char>, u: Seq<char>, v: Seq<char>)
    requires
        without_bars(x),
        without_bars(u),
        x + seq!['|'] + y == u + seq!['|'] + v,
    ensures
        x == u,
        y == v,
{
    let left = x + seq!['|'] + y;
    let right = u + seq!['|'] + v;
    if x.len() < u.len() {
        assert(left[x.len() as int] == '|');
        assert(right[x.len() as int] == u[x.len() as int]);
    }
    if u.len() < x.len() {
        assert(right[u.len() as int] == '|');
        assert(left[u.len() as int] == x[u.len() as int]);
    }
    assert(x =~= left.take(x.len() as int));
    assert(u =~= right.take(u.len() as int));
    assert(y =~= left.skip(x.len() as int + 1));
    assert(v =~= right.skip(u.len() as int + 1));
}

/// The parts of a report's key, apart.
spec fn key_parts(e: ScreenError) -> Seq<char> {
    ascii_lowercase(e.app@) + seq!['|'] + (ascii_lowercase(e.title@) + seq!['|'] + (
    ascii_lowercase(e.text@) + seq!['|'] + bool_text(e.hung)))
}

spec fn plain_report(e: ScreenError) -> bool {
    &&& is_ascii_chars(e.app@) && is_ascii_chars(e.title@) && is_ascii_chars(e.text@)
    &&& without_bars(e.app@) && without_bars(e.title@) && without_bars(e.text@)
}

proof fn lemma_plain_key(e: ScreenError)
    requires
        plain_report(e),
    ensures
        report_key(e) == key_parts(e),
        without_bars(ascii_lowercase(e.app@)),
        without_bars(ascii_lowercase(e.title@)),
        without_bars(ascii_lowercase(e.text@)),
{
    reveal_strlit("|");
    reveal_strlit("true");
    reveal_strlit("false");
    assert("|"@ =~= seq!['|']);
    let whole = e.app@ + "|"@ + e.title@ + "|"@ + e.text@ + "|"@ + bool_text(e.hung);
    assert(is_ascii_chars(whole));
    assert(ascii_lowercase(whole) =~= key_parts(e));
}

/// Two reports in ASCII whose texts hold no bar are equal exactly where their application,
/// title and text differ in case at most, and both windows hang or neither does.
pub proof fn equal_reports_differ_in_case_alone(a: ScreenError, b: ScreenError)
    requires
        is_ascii_chars(a.app@) && is_ascii_chars(a.title@) && is_ascii_chars(a.text@),
        is_ascii_chars(b.app@) && is_ascii_chars(b.title@) && is_ascii_chars(b.text@),
        without_bars(a.app@) && without_bars(a.title@) && without_bars(a.text@),
        without_bars(b.app@) && without_bars(b.title@) && without_bars(b.text@),
    ensures
        report_key(a) == report_key(b) <==> same_ignoring_ascii_case(a.app@, b.app@)
            && same_ignoring_ascii_case(a.title@, b.title@) && same_ignoring_ascii_case(
            a.text@,
            b.text@,
        ) && a.hung == b.hung,
{
    lemma_plain_key(a);
    lemma_plain_key(b);
    reveal_strlit("true");
    reveal_strlit("false");
    if report_key(a) == report_key(b) {
        let x = ascii_lowercase(a.text@) + seq!['|'] + bool_text(a.hung);
        let y = ascii_lowercase(b.text@) + seq!['|'] + bool_text(b.hung);
        lemma_first_part(
            ascii_lowercase(a.app@),
            ascii_lowercase(a.title@) + seq!['|'] + x,
            ascii_lowercase(b.app@),
            ascii_lowercase(b.title@) + seq!['|'] + y,
        );
        lemma_first_part(ascii_lowercase(a.title@), x, ascii_lowercase(b.title@), y);
        lemma_first_part(
            ascii_lowercase(a.text@),
            bool_text(a.hung),
            ascii_lowercase(b.text@),
            bool_text(b.hung),
        );
        assert("true"@.len() == 4 && "false"@.len() == 5);
    }
}

// ── What is kept of a report ──────────────────────────────────────────────────

/// What is kept of an application's path is what follows its last separator.
pub proof fn leaf_is_what_follows_the_last_separator(path: Seq<char>)
    ensures
        leaf(path).len() <= path.len(),
        leaf(path) == path.skip(path.len() - leaf(path).len()),
        leaf(path).len() < path.len() ==> ({
            let c = path[path.len() - leaf(path).len() - 1];
            c == '\\' || c == '/'
        }),
        forall|i: int| 0 <= i < leaf(path).len() ==> leaf(path)[i] != '\\' && leaf(path)[i] != '/',
    decreases path.len(),
{
    if path.len() > 0 && !separator(path.last()) {
        let rest = path.drop_last();
        leaf_is_what_follows_the_last_separator(rest);
        let l = leaf(path);
        let r = leaf(rest);
        assert(l =~= path.skip(path.len() - l.len())) by {
            assert forall|i: int| 0 <= i < l.len() implies l[i] == path[i + path.len() - l.len()] by {
                if i < r.len() {
                    assert(l[i] == r[i]);
                    assert(r[i] == rest.skip(rest.len() - r.len())[i]);
                }
            }
        }
        if l.len() < path.len() {
            assert(path[path.len() - l.len() - 1] == rest[rest.len() - r.len() - 1]);
        }
    } else {
        assert(leaf(path) =~= path.skip(path.len() as int));
    }
}

proof fn lemma_split_holds_no_separator(s: Seq<char>, sep: spec_fn(char) -> bool)
    ensures
        split_on(s, sep).len() > 0,
        forall|i: int, k: int|
            #![trigger split_on(s, sep)[i][k]]
            0 <= i < split_on(s, sep).len() && 0 <= k < split_on(s, sep)[i].len() ==> !sep(
                split_on(s, sep)[i][k],
            ),
    decreases s.len(),
{
    if s.len() > 0 {
        let rest = s.drop_last();
        lemma_split_holds_no_separator(rest, sep);
        let before = split_on(rest, sep);
        let all = split_on(s, sep);
        assert forall|i: int, k: int|
            #![trigger all[i][k]]
            0 <= i < all.len() && 0 <= k < all[i].len() implies !sep(all[i][k]) by {
            if sep(s.last()) {
                if i < before.len() {
                    assert(all[i][k] == before[i][k]);
                }
            } else if i < before.len() - 1 || k < before[i].len() {
                assert(all[i][k] == before[i][k]);
            }
        }
    }
}

proof fn lemma_nonempty_from(pieces: Seq<Seq<char>>, i: int) -> (k: int)
    requires
        0 <= i < nonempty(pieces).len(),
    ensures
        0 <= k < pieces.len(),
        nonempty(pieces)[i] == pieces[k],
    decreases pieces.len(),
{
    let rest = pieces.drop_last();
    if i < nonempty(rest).len() {
        let k = lemma_nonempty_from(rest, i);
        k
    } else {
        pieces.len() - 1
    }
}

proof fn lemma_join_chars(parts: Seq<Seq<char>>, sep: Seq<char>, i: int)
    requires
        0 <= i < join(parts, sep).len(),
    ensures
        sep.contains(join(parts, sep)[i]) || exists|p: int, k: int|
            0 <= p < parts.len() && 0 <= k < parts[p].len() && (#[trigger] parts[p][k]) == join(
                parts,
                sep,
            )[i],
    decreases parts.len(),
{
    if parts.len() == 1 {
        assert(parts[0][i] == join(parts, sep)[i]);
    } else if parts.len() > 1 {
        let before = join(parts.drop_last(), sep);
        if i < before.len() {
            lemma_join_chars(parts.drop_last(), sep, i);
            if !sep.contains(before[i]) {
                let (p, k) = choose|p: int, k: int|
                    0 <= p < parts.drop_last().len() && 0 <= k < parts.drop_last()[p].len() && (
                    #[trigger] parts.drop_last()[p][k]) == before[i];
                assert(parts[p][k] == join(parts, sep)[i]);
            }
        } else if i < before.len() + sep.len() {
            assert(sep[i - before.len()] == join(parts, sep)[i]);
        } else {
            let k = i - before.len() - sep.len();
            assert(parts[parts.len() - 1][k] == join(parts, sep)[i]);
        }
    }
}

/// A cleaned text is within its cap and holds no control character and no white space but single
/// spaces.
pub proof fn cleaned_text_is_plain(s: Seq<char>, max: int, i: int)
    requires
        max >= 0,
    ensures
        cleaned(s, max).len() <= max,
        0 <= i < cleaned(s, max).len() ==> cleaned(s, max)[i] == ' ' || (!unicode_whitespace(
            cleaned(s, max)[i],
        ) && !control_char(cleaned(s, max)[i])),
{
    let sep = |c: char| blank(c);
    let pieces = split_on(s, sep);
    let words = words_by(s, sep);
    let line = join(words, " "@);
    reveal_strlit(" ");
    if 0 <= i < cleaned(s, max).len() {
        lemma_split_holds_no_separator(s, sep);
        lemma_join_chars(words, " "@, i);
        assert(cleaned(s, max)[i] == line[i]);
        if " "@.contains(line[i]) {
            assert(line[i] == ' ');
        } else {
            let (p, k) = choose|p: int, k: int|
                0 <= p < words.len() && 0 <= k < words[p].len() && (#[trigger] words[p][k])
                    == line[i];
            let q = lemma_nonempty_from(pieces, p);
            assert(!sep(pieces[q][k]));
        }
    }
}

/// A text of plain characters that fits is kept as it is.
pub proof fn plain_word_is_kept(s: Seq<char>, max: int)
    requires
        0 < s.len() <= max,
        forall|i: int|
            0 <= i < s.len() ==> !unicode_whitespace(#[trigger] s[i]) && !control_char(s[i]),
    ensures
        cleaned(s, max) == s,
{
    let sep = |c: char| blank(c);
    lemma_one_piece(s, sep);
    let one = split_on(s, sep);
    assert(one =~= seq![s]);
    assert(one.drop_last() =~= Seq::<Seq<char>>::empty());
    assert(nonempty(one.drop_last()) =~= Seq::<Seq<char>>::empty());
    assert(nonempty(one) =~= seq![s]);
    assert(join(seq![s], " "@) == s);
}

proof fn lemma_one_piece(s: Seq<char>, sep: spec_fn(char) -> bool)
    requires
        forall|i: int| 0 <= i < s.len() ==> !sep(#[trigger] s[i]),
    ensures
        split_on(s, sep) == seq![s],
    decreases s.len(),
{
    if s.len() > 0 {
        let rest = s.drop_last();
        assert forall|i: int| 0 <= i < rest.len() implies !sep(#[trigger] rest[i]) by {
            assert(s[i] == rest[i]);
        }
        lemma_one_piece(rest, sep);
        assert(!sep(s[s.len() - 1]));
        assert(rest.push(s.last()) =~= s);
        assert(split_on(s, sep) =~= seq![s]);
    } else {
        assert(s =~= Seq::<char>::empty());
        assert(split_on(s, sep) =~= seq![s]);
    }
}

/// The remembered reports that still count are those of the last ten minutes, all of them and in
/// order.
pub proof fn reports_count_for_ten_minutes(seen: Seq<SeenModel>, now: i64)
    ensures
        counting(seen, now) == seen.filter(|s: SeenModel| now - s.1 < 600),
    decreases seen.len(),
{
    reveal(Seq::filter);
    if seen.len() > 0 {
        reports_count_for_ten_minutes(seen.drop_last(), now);
    }
}

/// What waits or is remembered is the newest of what came, in order, and nothing leaves below
/// the cap.
pub proof fn newest_reports_are_kept<A>(s: Seq<A>, x: A, cap: int)
    requires
        s.len() <= cap,
        cap > 0,
    ensures
        pushed(s, x, cap).last() == x,
        pushed(s, x, cap).len() <= cap,
        s.len() < cap ==> pushed(s, x, cap) == s.push(x),
        s.len() == cap ==> pushed(s, x, cap) == s.skip(1).push(x),
{
}

/// A window that hangs has no text of its own; any other report keeps its text, cleaned.
pub proof fn hung_window_has_no_text(text: Seq<char>)
    ensures
        kept_text(text, true).len() == 0,
        kept_text(text, false) == cleaned(text, 1500),
{
}

/// A report needs a program, and some text unless its window hung; it is taken with its time and
/// its words, cleaned and capped.
pub proof fn report_needs_a_program_and_text(
    app: &str,
    title: &str,
    text: &str,
    hung: bool,
    at: Moment,
    r: Result<ScreenError, ReportError>,
)
    requires
        call_ensures(normalise, (app, title, text, hung, at), r),
    ensures
        ({
            let name = cleaned(leaf(app@), 120);
            let head = cleaned(title@, 200);
            &&& name.len() == 0 ==> r == Err::<ScreenError, ReportError>(ReportError::NoApplication)
            &&& name.len() > 0 && (hung || head.len() > 0) ==> r is Ok
            &&& r matches Ok(e) ==> e.app@ == name && e.title@ == head && e.timestamp == at
                && e.hung == hung
            &&& r matches Ok(e) ==> (hung ==> e.text@.len() == 0)
            &&& r matches Ok(e) ==> (!hung ==> e.text@ == cleaned(text@, 1500))
        }),
{
    hung_window_has_no_text(text@);
}

/// What was reported is handed out once, in order; what counts as seen stays.
pub proof fn reports_are_handed_out_once(buffer: &mut ScreenErrorBuffer, r: Vec<ScreenError>)
    requires
        call_ensures(ScreenErrorBuffer::drain, (buffer,), r),
    ensures
        r@ == old(buffer).pending@ && final(buffer).pending@.len() == 0 && final(buffer).seen@
            == old(buffer).seen@,
{
}

} // verus!
