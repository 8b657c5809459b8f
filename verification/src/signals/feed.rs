//! The dashboard's list of what was noticed: a bounded record, for display alone, of the
//! errors that each collector delivered.

use crate::models::{EventLogEntry, FileChange, LogEvent, ScreenError, SignalSnapshot};
use crate::text::{
    ascii_lowercase, contains, contains_text, decimal, decimal_text, ellipsize, ellipsized, lines,
    lines_of, same, single_spaced, to_ascii_lowercase, views, with_single_spaces,
};
use vstd::prelude::*;
use vstd::string::*;

verus! {

/// Items listed at once.
pub const FEED_CAP: usize = 30;

/// Cleared items remembered at once.
pub const DISMISSED_CAP: usize = 60;

/// Characters of a summary.
pub const MAX_SUMMARY_CHARS: usize = 240;

/// An identical item that was listed less than so many seconds ago is not repeated.
pub const REPEAT_WINDOW_SECS: i64 = 10 * 60;

/// One item of the list.
#[derive(Debug, Clone)]
pub struct SignalView {
    pub at: i64,
    pub source: String,
    pub app: String,
    pub summary: String,
}

/// An item with its texts as characters.
pub struct SignalModel {
    pub at: i64,
    pub source: Seq<char>,
    pub app: Seq<char>,
    pub summary: Seq<char>,
}

impl View for SignalView {
    type V = SignalModel;

    open spec fn view(&self) -> SignalModel {
        SignalModel { at: self.at, source: self.source@, app: self.app@, summary: self.summary@ }
    }
}

/// The views of a sequence of items.
pub open spec fn signal_views(s: Seq<SignalView>) -> Seq<SignalModel> {
    s.map_values(|v: SignalView| v@)
}

/// A text on one line, its words a space apart, cut with an ellipsis.
pub open spec fn on_one_line(s: Seq<char>) -> Seq<char> {
    ellipsized(single_spaced(s), MAX_SUMMARY_CHARS as int)
}

/// A text on one line, its words a space apart, cut with an ellipsis.
pub fn one_line(s: &str) -> (r: String)
    ensures
        r@ == on_one_line(s@),
        r@.len() <= MAX_SUMMARY_CHARS,
{
    let text = with_single_spaces(s);
    ellipsize(text.as_str(), MAX_SUMMARY_CHARS)
}

// ── Items ─────────────────────────────────────────────────────────────────────

/// The item of an error of the event log.
pub open spec fn event_item(e: EventLogEntry) -> SignalModel {
    SignalModel {
        at: e.timestamp.secs,
        source: "event_log"@,
        app: on_one_line(e.source@),
        summary: on_one_line("Event "@ + decimal(e.event_id as nat) + ": "@ + e.message@),
    }
}

/// The items of the errors of the event log; warnings are too many to list.
pub open spec fn event_items(entries: Seq<EventLogEntry>) -> Seq<SignalModel>
    decreases entries.len(),
{
    if entries.len() == 0 {
        Seq::empty()
    } else if entries.last().level@ == "Error"@ {
        event_items(entries.drop_last()).push(event_item(entries.last()))
    } else {
        event_items(entries.drop_last())
    }
}

/// Whether a line tells what went wrong.
pub open spec fn telling(line: Seq<char>) -> bool {
    let lower = ascii_lowercase(line);
    contains(lower, "error"@) || contains(lower, "fatal"@) || contains(lower, "exception"@)
}

/// The first line that tells what went wrong.
pub open spec fn first_telling(ls: Seq<Seq<char>>) -> Option<Seq<char>>
    decreases ls.len(),
{
    if ls.len() == 0 {
        None
    } else if telling(ls[0]) {
        Some(ls[0])
    } else {
        first_telling(ls.skip(1))
    }
}

/// The first line of some excerpts that tells what went wrong.
pub open spec fn first_telling_of(snippets: Seq<Seq<char>>) -> Option<Seq<char>>
    decreases snippets.len(),
{
    if snippets.len() == 0 {
        None
    } else if first_telling(lines(snippets[0])) is Some {
        first_telling(lines(snippets[0]))
    } else {
        first_telling_of(snippets.skip(1))
    }
}

/// The line that stands for a log event: the first that tells what went wrong, else its
/// first excerpt, else a general remark.
pub open spec fn headline(snippets: Seq<Seq<char>>) -> Seq<char> {
    match first_telling_of(snippets) {
        Some(line) => line,
        None => if snippets.len() > 0 {
            snippets[0]
        } else {
            "error written to its log"@
        },
    }
}

/// Whether a log event is listed: an error, or worse.
pub open spec fn listed_event(change: FileChange) -> bool {
    match change.log_event {
        Some(e) => e.severity@ == "ERROR"@ || e.severity@ == "FATAL"@,
        None => false,
    }
}

/// The item of a log event.
pub open spec fn change_item(change: FileChange, e: LogEvent) -> SignalModel {
    SignalModel {
        at: change.timestamp.secs,
        source: "app_log"@,
        app: on_one_line(e.program@),
        summary: on_one_line(headline(views(e.error_snippets@))),
    }
}

/// The items of the errors in logs.
pub open spec fn change_items(changes: Seq<FileChange>) -> Seq<SignalModel>
    decreases changes.len(),
{
    if changes.len() == 0 {
        Seq::empty()
    } else if listed_event(changes.last()) {
        change_items(changes.drop_last()).push(
            change_item(changes.last(), changes.last().log_event->0),
        )
    } else {
        change_items(changes.drop_last())
    }
}

fn is_telling(line: &str) -> (r: bool)
    ensures
        r == telling(line@),
{
    let lower = to_ascii_lowercase(line);
    let text = lower.as_str();
    contains_text(text, "error") || contains_text(text, "fatal") || contains_text(text, "exception")
}

fn telling_line(ls: &Vec<String>) -> (r: Option<usize>)
    ensures
        match r {
            Some(i) => i < ls@.len() && first_telling(views(ls@)) == Some(ls@[i as int]@),
            None => first_telling(views(ls@)) is None,
        },
{
    let ghost all = views(ls@);
    let mut i: usize = 0;
    assert(all.skip(0) =~= all);
    while i < ls.len()
        invariant
            i <= ls@.len(),
            all == views(ls@),
            first_telling(all) == first_telling(all.skip(i as int)),
        decreases ls@.len() - i,
    {
        assert(all.skip(i as int)[0] == ls@[i as int]@);
        if is_telling(ls[i].as_str()) {
            return Some(i);
        }
        assert(all.skip(i as int).skip(1) =~= all.skip(i + 1));
        i += 1;
    }
    None
}

fn headline_of(snippets: &Vec<String>) -> (r: String)
    ensures
        r@ == headline(views(snippets@)),
{
    let ghost all = views(snippets@);
    assert(all.len() == snippets@.len());
    let mut i: usize = 0;
    assert(all.skip(0) =~= all);
    while i < snippets.len()
        invariant
            i <= snippets@.len(),
            all == views(snippets@),
            first_telling_of(all) == first_telling_of(all.skip(i as int)),
        decreases snippets@.len() - i,
    {
        assert(all.skip(i as int)[0] == snippets@[i as int]@);
        let ls = lines_of(snippets[i].as_str());
        if let Some(k) = telling_line(&ls) {
            return ls[k].clone();
        }
        assert(all.skip(i as int).skip(1) =~= all.skip(i + 1));
        i += 1;
    }
    if snippets.len() > 0 {
        assert(all[0] == snippets@[0]@);
        snippets[0].clone()
    } else {
        "error written to its log".to_owned()
    }
}

/// The errors among the signals of one analysis, as items. Screen errors are listed when
/// they are reported, not here, so that they are not listed twice.
pub fn from_snapshot(snap: &SignalSnapshot) -> (r: Vec<SignalView>)
    ensures
        signal_views(r@) == event_items(snap.event_log@) + change_items(snap.file_changes@),
{
    let mut items: Vec<SignalView> = Vec::new();
    let entries = &snap.event_log;
    let mut i: usize = 0;
    assert(entries@.take(0) =~= Seq::<EventLogEntry>::empty());
    assert(signal_views(items@) =~= Seq::<SignalModel>::empty());
    while i < entries.len()
        invariant
            i <= entries@.len(),
            signal_views(items@) == event_items(entries@.take(i as int)),
        decreases entries@.len() - i,
    {
        assert(entries@.take(i + 1).drop_last() =~= entries@.take(i as int));
        assert(entries@.take(i + 1).last() == entries@[i as int]);
        let e = &entries[i];
        if same(e.level.as_str(), "Error") {
            let mut text = "Event ".to_owned();
            let number = decimal_text(e.event_id as u64);
            text.append(number.as_str());
            text.append(": ");
            text.append(e.message.as_str());
            let item = SignalView {
                at: e.timestamp.secs,
                source: "event_log".to_owned(),
                app: one_line(e.source.as_str()),
                summary: one_line(text.as_str()),
            };
            let ghost before = items@;
            items.push(item);
            assert(signal_views(items@) =~= signal_views(before).push(item@));
        }
        i += 1;
    }
    assert(entries@.take(entries@.len() as int) =~= entries@);
    let ghost events = event_items(entries@);
    let changes = &snap.file_changes;
    let mut k: usize = 0;
    assert(changes@.take(0) =~= Seq::<FileChange>::empty());
    assert(signal_views(items@) =~= events + change_items(changes@.take(0)));
    while k < changes.len()
        invariant
            k <= changes@.len(),
            signal_views(items@) == events + change_items(changes@.take(k as int)),
        decreases changes@.len() - k,
    {
        assert(changes@.take(k + 1).drop_last() =~= changes@.take(k as int));
        assert(changes@.take(k + 1).last() == changes@[k as int]);
        let change = &changes[k];
        if let Some(e) = &change.log_event {
            if same(e.severity.as_str(), "ERROR") || same(e.severity.as_str(), "FATAL") {
                let line = headline_of(&e.error_snippets);
                let item = SignalView {
                    at: change.timestamp.secs,
                    source: "app_log".to_owned(),
                    app: one_line(e.program.as_str()),
                    summary: one_line(line.as_str()),
                };
                let ghost before = items@;
                items.push(item);
                assert(signal_views(items@) =~= signal_views(before).push(item@));
            }
        }
        assert(signal_views(items@) =~= events + change_items(changes@.take(k + 1)));
        k += 1;
    }
    assert(changes@.take(changes@.len() as int) =~= changes@);
    items
}

/// What the item of a screen error says.
pub open spec fn screen_summary(e: ScreenError) -> Seq<char> {
    if e.hung {
        "Stopped responding: "@ + e.title@
    } else if e.title@.len() == 0 {
        e.text@
    } else if e.text@.len() == 0 {
        e.title@
    } else {
        e.title@ + " — "@ + e.text@
    }
}

/// The item of a screen error.
pub fn screen_view(e: &ScreenError) -> (r: SignalView)
    ensures
        r@ == (SignalModel {
            at: e.timestamp.secs,
            source: if e.hung {
                "hung"@
            } else {
                "screen"@
            },
            app: e.app@,
            summary: on_one_line(screen_summary(*e)),
        }),
{
    let summary = if e.hung {
        let mut text = "Stopped responding: ".to_owned();
        text.append(e.title.as_str());
        text
    } else if e.title.as_str().is_empty() {
        e.text.clone()
    } else if e.text.as_str().is_empty() {
        e.title.clone()
    } else {
        let mut text = e.title.clone();
        text.append(" — ");
        text.append(e.text.as_str());
        text
    };
    let source = if e.hung {
        "hung"
    } else {
        "screen"
    };
    SignalView {
        at: e.timestamp.secs,
        source: source.to_owned(),
        app: e.app.clone(),
        summary: one_line(summary.as_str()),
    }
}

// ── The list ──────────────────────────────────────────────────────────────────

/// Whether an item repeats a listed one: the same words from the same place, within the
/// window.
pub open spec fn repeats(listed: SignalModel, item: SignalModel) -> bool {
    &&& listed.source == item.source
    &&& listed.app == item.app
    &&& listed.summary == item.summary
    &&& -REPEAT_WINDOW_SECS < item.at - listed.at < REPEAT_WINDOW_SECS
}

/// Whether an item repeats one of some.
pub open spec fn repeats_any(listed: Seq<SignalModel>, item: SignalModel) -> bool {
    exists|i: int| 0 <= i < listed.len() && repeats(#[trigger] listed[i], item)
}

/// The first `cap` items of a sequence.
pub open spec fn first<A>(s: Seq<A>, cap: int) -> Seq<A> {
    if s.len() <= cap {
        s
    } else {
        s.take(cap)
    }
}

/// The list once an item has come: at the front, unless it repeats what is listed or was
/// dismissed.
pub open spec fn listed_with(
    items: Seq<SignalModel>,
    dismissed: Seq<SignalModel>,
    item: SignalModel,
) -> Seq<SignalModel> {
    if repeats_any(items, item) || repeats_any(dismissed, item) {
        items
    } else {
        first(seq![item] + items, FEED_CAP as int)
    }
}

/// The list once some items have come, one after the other.
pub open spec fn listed_with_all(
    items: Seq<SignalModel>,
    dismissed: Seq<SignalModel>,
    new: Seq<SignalModel>,
) -> Seq<SignalModel>
    decreases new.len(),
{
    if new.len() == 0 {
        items
    } else {
        listed_with(listed_with_all(items, dismissed, new.drop_last()), dismissed, new.last())
    }
}

/// What is remembered as dismissed once some items have gone, the last one first.
pub open spec fn remembered_with(dismissed: Seq<SignalModel>, gone: Seq<SignalModel>) -> Seq<
    SignalModel,
> {
    first(gone.reverse() + dismissed, DISMISSED_CAP as int)
}

/// Whether an item repeats a listed one.
pub fn is_repeat(listed: &SignalView, item: &SignalView) -> (r: bool)
    ensures
        r == repeats(listed@, item@),
{
    let gap: i128 = item.at as i128 - listed.at as i128;
    same(listed.source.as_str(), item.source.as_str()) && same(
        listed.app.as_str(),
        item.app.as_str(),
    ) && same(listed.summary.as_str(), item.summary.as_str()) && gap < REPEAT_WINDOW_SECS as i128
        && gap > -(REPEAT_WINDOW_SECS as i128)
}

fn is_repeat_of_any(listed: &Vec<SignalView>, item: &SignalView) -> (r: bool)
    ensures
        r == repeats_any(signal_views(listed@), item@),
{
    let ghost all = signal_views(listed@);
    let mut i: usize = 0;
    while i < listed.len()
        invariant
            i <= listed@.len(),
            all == signal_views(listed@),
            forall|k: int| 0 <= k < i ==> !repeats(#[trigger] all[k], item@),
        decreases listed@.len() - i,
    {
        assert(all[i as int] == listed@[i as int]@);
        if is_repeat(&listed[i], item) {
            return true;
        }
        i += 1;
    }
    false
}

fn same_item(a: &SignalView, b: &SignalView) -> (r: bool)
    ensures
        r == (a@ == b@),
{
    a.at == b.at && same(a.source.as_str(), b.source.as_str()) && same(
        a.app.as_str(),
        b.app.as_str(),
    ) && same(a.summary.as_str(), b.summary.as_str())
}

/// The list, newest first, and what the user cleared or dismissed from it. That is
/// remembered for the window, so that the same report coming again at once stays away; the
/// same problem happening later is listed as new.
pub struct Feed {
    pub items: Vec<SignalView>,
    pub dismissed: Vec<SignalView>,
}

/// The first position of an item.
pub open spec fn position(items: Seq<SignalModel>, item: SignalModel) -> Option<int>
    decreases items.len(),
{
    if items.len() == 0 {
        None
    } else if position(items.drop_last(), item) is Some {
        position(items.drop_last(), item)
    } else if items.last() == item {
        Some(items.len() - 1)
    } else {
        None
    }
}

proof fn lemma_position(items: Seq<SignalModel>, item: SignalModel)
    ensures
        match position(items, item) {
            Some(i) => 0 <= i < items.len() && items[i] == item && forall|k: int|
                0 <= k < i ==> items[k] != item,
            None => forall|k: int| 0 <= k < items.len() ==> items[k] != item,
        },
    decreases items.len(),
{
    if items.len() > 0 {
        lemma_position(items.drop_last(), item);
        assert forall|k: int| 0 <= k < items.len() - 1 implies items[k] == items.drop_last()[k] by {
        }
    }
}

/// Whether no item repeats another, nor one that was dismissed.
pub open spec fn free_of_repeats(items: Seq<SignalModel>, dismissed: Seq<SignalModel>) -> bool {
    &&& forall|i: int, j: int|
        0 <= i < j < items.len() ==> !repeats(#[trigger] items[i], #[trigger] items[j])
    &&& forall|i: int, k: int|
        0 <= i < items.len() && 0 <= k < dismissed.len() ==> !repeats(
            #[trigger] dismissed[k],
            #[trigger] items[i],
        )
}

proof fn lemma_listing_adds_no_repeat(
    items: Seq<SignalModel>,
    dismissed: Seq<SignalModel>,
    item: SignalModel,
)
    requires
        free_of_repeats(items, dismissed),
    ensures
        free_of_repeats(listed_with(items, dismissed, item), dismissed),
{
    let after = listed_with(items, dismissed, item);
    if !(repeats_any(items, item) || repeats_any(dismissed, item)) {
        assert forall|i: int, j: int| 0 <= i < j < after.len() implies !repeats(
            #[trigger] after[i],
            #[trigger] after[j],
        ) by {
            assert(after[j] == items[j - 1]);
            if i == 0 {
                assert(!repeats(items[j - 1], item));
            } else {
                assert(after[i] == items[i - 1]);
            }
        }
        assert forall|i: int, k: int|
            0 <= i < after.len() && 0 <= k < dismissed.len() implies !repeats(
            #[trigger] dismissed[k],
            #[trigger] after[i],
        ) by {
            if i > 0 {
                assert(after[i] == items[i - 1]);
            }
        }
    }
}

proof fn lemma_listing_all_adds_no_repeat(
    items: Seq<SignalModel>,
    dismissed: Seq<SignalModel>,
    new: Seq<SignalModel>,
)
    requires
        free_of_repeats(items, dismissed),
    ensures
        free_of_repeats(listed_with_all(items, dismissed, new), dismissed),
    decreases new.len(),
{
    if new.len() > 0 {
        lemma_listing_all_adds_no_repeat(items, dismissed, new.drop_last());
        lemma_listing_adds_no_repeat(
            listed_with_all(items, dismissed, new.drop_last()),
            dismissed,
            new.last(),
        );
    }
}

proof fn lemma_dismissing_adds_no_repeat(
    items: Seq<SignalModel>,
    dismissed: Seq<SignalModel>,
    i: int,
)
    requires
        free_of_repeats(items, dismissed),
        0 <= i < items.len(),
    ensures
        free_of_repeats(items.remove(i), remembered_with(dismissed, seq![items[i]])),
{
    let left = items.remove(i);
    let gone = remembered_with(dismissed, seq![items[i]]);
    assert forall|a: int, b: int| 0 <= a < b < left.len() implies !repeats(
        #[trigger] left[a],
        #[trigger] left[b],
    ) by {
        let x = if a < i {
            a
        } else {
            a + 1
        };
        let y = if b < i {
            b
        } else {
            b + 1
        };
        assert(left[a] == items[x] && left[b] == items[y]);
    }
    assert forall|a: int, k: int| 0 <= a < left.len() && 0 <= k < gone.len() implies !repeats(
        #[trigger] gone[k],
        #[trigger] left[a],
    ) by {
        let x = if a < i {
            a
        } else {
            a + 1
        };
        assert(left[a] == items[x]);
        if k == 0 {
            assert(gone[k] == items[i]);
            assert(!repeats(items[i], items[x]) && !repeats(items[x], items[i]));
        } else {
            assert(gone[k] == dismissed[k - 1]);
        }
    }
}

impl Feed {
    /// Never more items than the caps, and no item repeats another or one that was dismissed.
    pub open spec fn wf(self) -> bool {
        &&& self.items@.len() <= FEED_CAP
        &&& self.dismissed@.len() <= DISMISSED_CAP
        &&& free_of_repeats(signal_views(self.items@), signal_views(self.dismissed@))
    }

    /// Nothing is listed.
    pub fn new() -> (r: Feed)
        ensures
            r.wf(),
            r.items@.len() == 0,
            r.dismissed@.len() == 0,
    {
        Feed { items: Vec::new(), dismissed: Vec::new() }
    }

    /// The listed items, newest first.
    pub fn items(&self) -> (r: &Vec<SignalView>)
        ensures
            r@ == self.items@,
    {
        &self.items
    }

    /// Add items, each at the front, passing over repeats of what is listed or was
    /// dismissed lately.
    pub fn push(&mut self, items: Vec<SignalView>)
        requires
            old(self).wf(),
        ensures
            final(self).wf(),
            final(self).dismissed@ == old(self).dismissed@,
            signal_views(final(self).items@) == listed_with_all(
                signal_views(old(self).items@),
                signal_views(old(self).dismissed@),
                signal_views(items@),
            ),
    {
        let ghost start = signal_views(self.items@);
        let ghost gone = signal_views(self.dismissed@);
        let ghost all = items@;
        let ghost new = signal_views(items@);
        assert(new.take(0) =~= Seq::<SignalModel>::empty());
        for item in it: items
            invariant
                it.seq() == all,
                new == signal_views(all),
                self.items@.len() <= FEED_CAP,
                self.dismissed@ == old(self).dismissed@,
                gone == signal_views(self.dismissed@),
                signal_views(self.items@) == listed_with_all(
                    start,
                    gone,
                    new.take(it.index() as int),
                ),
        {
            let ghost i = it.index() as int;
            assert(new.take(i + 1).drop_last() =~= new.take(i));
            assert(new.take(i + 1).last() == item@);
            if !is_repeat_of_any(&self.items, &item) && !is_repeat_of_any(&self.dismissed, &item) {
                let ghost before = self.items@;
                self.items.insert(0, item);
                let ghost mid = self.items@;
                self.items.truncate(FEED_CAP);
                assert(signal_views(mid) =~= seq![item@] + signal_views(before));
                assert(signal_views(self.items@) =~= first(signal_views(mid), FEED_CAP as int));
            }
        }
        assert(new.take(new.len() as int) =~= new);
        proof {
            lemma_listing_all_adds_no_repeat(start, gone, new);
        }
    }

    /// Remove every listed item; how many there were.
    pub fn clear(&mut self) -> (r: usize)
        requires
            old(self).wf(),
        ensures
            final(self).wf(),
            r == old(self).items@.len(),
            final(self).items@.len() == 0,
            signal_views(final(self).dismissed@) == remembered_with(
                signal_views(old(self).dismissed@),
                signal_views(old(self).items@),
            ),
    {
        let cleared: usize = self.items.len();
        let mut items: Vec<SignalView> = Vec::new();
        std::mem::swap(&mut items, &mut self.items);
        self.remember_dismissed(items);
        cleared
    }

    /// Remove one listed item, matched on every field; whether it was listed.
    pub fn dismiss(&mut self, item: &SignalView) -> (r: bool)
        requires
            old(self).wf(),
        ensures
            final(self).wf(),
            match position(signal_views(old(self).items@), item@) {
                Some(i) => {
                    &&& r
                    &&& final(self).items@ == old(self).items@.remove(i)
                    &&& signal_views(final(self).dismissed@) == remembered_with(
                        signal_views(old(self).dismissed@),
                        seq![item@],
                    )
                },
                None => !r && *final(self) == *old(self),
            },
    {
        let ghost all = signal_views(self.items@);
        proof {
            lemma_position(all, item@);
        }
        let mut i: usize = 0;
        while i < self.items.len()
            invariant
                i <= self.items@.len(),
                *self == *old(self),
                self.wf(),
                all == signal_views(self.items@),
                all == signal_views(old(self).items@),
                match position(all, item@) {
                    Some(i) => 0 <= i < all.len() && all[i] == item@ && forall|k: int|
                        0 <= k < i ==> all[k] != item@,
                    None => forall|k: int| 0 <= k < all.len() ==> all[k] != item@,
                },
                forall|k: int| 0 <= k < i ==> all[k] != item@,
            decreases self.items@.len() - i,
        {
            assert(all[i as int] == self.items@[i as int]@);
            if same_item(&self.items[i], item) {
                assert(position(all, item@) == Some(i as int));
                let removed = self.items.remove(i);
                let mut gone: Vec<SignalView> = Vec::new();
                gone.push(removed);
                assert(signal_views(gone@) =~= seq![item@]);
                self.remember_dismissed(gone);
                proof {
                    let had = signal_views(old(self).dismissed@);
                    assert(signal_views(self.items@) =~= all.remove(i as int));
                    lemma_dismissing_adds_no_repeat(all, had, i as int);
                }
                return true;
            }
            i += 1;
        }
        false
    }

    fn remember_dismissed(&mut self, items: Vec<SignalView>)
        requires
            old(self).dismissed@.len() <= DISMISSED_CAP,
        ensures
            final(self).items@ == old(self).items@,
            final(self).dismissed@.len() <= DISMISSED_CAP,
            signal_views(final(self).dismissed@) == remembered_with(
                signal_views(old(self).dismissed@),
                signal_views(items@),
            ),
    {
        let ghost had = self.dismissed@;
        let ghost all = items@;
        assert(self.dismissed@ =~= all.take(0).reverse() + had);
        for item in it: items
            invariant
                it.seq() == all,
                self.items@ == old(self).items@,
                self.dismissed@ == all.take(it.index() as int).reverse() + had,
        {
            self.dismissed.insert(0, item);
            assert(self.dismissed@ =~= all.take(it.index() as int + 1).reverse() + had);
        }
        assert(all.take(all.len() as int) =~= all);
        self.dismissed.truncate(DISMISSED_CAP);
        assert(signal_views(self.dismissed@) =~= remembered_with(
            signal_views(had),
            signal_views(all),
        ));
    }
}

/// A cleared item stays away while its window lasts, whatever is listed and dismissed after
/// it, as long as no more is dismissed than is remembered.
pub proof fn cleared_item_stays_away(
    items: Seq<SignalModel>,
    dismissed: Seq<SignalModel>,
    i: int,
    listed: Seq<SignalModel>,
    gone: Seq<SignalModel>,
    again: SignalModel,
)
    requires
        0 <= i < items.len(),
        items.len() + gone.len() <= DISMISSED_CAP,
        repeats(items[i], again),
    ensures
        listed_with(
            listed,
            remembered_with(remembered_with(dismissed, items), gone),
            again,
        ) == listed,
{
    let first_gone = remembered_with(dismissed, items);
    let all_gone = remembered_with(first_gone, gone);
    let k = items.len() - 1 - i;
    assert(items.reverse()[k] == items[i]);
    assert(first_gone[k] == items[i]);
    assert(all_gone[gone.len() + k] == items[i]);
    assert(repeats_any(all_gone, again));
}

/// A later recurrence of a listed or cleared problem is listed as new.
pub proof fn later_recurrence_is_listed(
    items: Seq<SignalModel>,
    dismissed: Seq<SignalModel>,
    item: SignalModel,
)
    requires
        forall|i: int|
            0 <= i < items.len() ==> item.at - (#[trigger] items[i]).at >= REPEAT_WINDOW_SECS,
        forall|i: int|
            0 <= i < dismissed.len() ==> item.at - (#[trigger] dismissed[i]).at
                >= REPEAT_WINDOW_SECS,
    ensures
        listed_with(items, dismissed, item).len() > 0,
        listed_with(items, dismissed, item)[0] == item,
{
    assert(!repeats_any(items, item));
    assert(!repeats_any(dismissed, item));
}

// ── What is listed ────────────────────────────────────────────────────────────

/// The errors of the event log are listed, each once and in order, and nothing else of it is.
pub proof fn errors_of_the_log_are_listed(entries: Seq<EventLogEntry>)
    ensures
        event_items(entries) == entries.filter(
            |e: EventLogEntry| e.level@ == "Error"@,
        ).map_values(|e: EventLogEntry| event_item(e)),
    decreases entries.len(),
{
    reveal(Seq::filter);
    let keep = |e: EventLogEntry| e.level@ == "Error"@;
    let item = |e: EventLogEntry| event_item(e);
    if entries.len() > 0 {
        let before = entries.drop_last();
        errors_of_the_log_are_listed(before);
        if keep(entries.last()) {
            assert(entries.filter(keep) == before.filter(keep).push(entries.last()));
            assert(before.filter(keep).push(entries.last()).map_values(item)
                =~= before.filter(keep).map_values(item).push(event_item(entries.last())));
        }
    } else {
        assert(entries.filter(keep).map_values(item) =~= event_items(entries));
    }
}

/// The errors that programs wrote to their logs are listed, each once and in order; a warning is
/// not.
pub proof fn errors_of_programs_are_listed(changes: Seq<FileChange>)
    ensures
        change_items(changes) == changes.filter(
            |c: FileChange|
                c.log_event is Some && ((c.log_event->0).severity@ == "ERROR"@ || (
                c.log_event->0).severity@ == "FATAL"@),
        ).map_values(|c: FileChange| change_item(c, c.log_event->0)),
    decreases changes.len(),
{
    reveal(Seq::filter);
    let keep = |c: FileChange|
        c.log_event is Some && ((c.log_event->0).severity@ == "ERROR"@ || (
        c.log_event->0).severity@ == "FATAL"@);
    let item = |c: FileChange| change_item(c, c.log_event->0);
    if changes.len() > 0 {
        let before = changes.drop_last();
        errors_of_programs_are_listed(before);
        assert(keep(changes.last()) == listed_event(changes.last()));
        if keep(changes.last()) {
            assert(changes.filter(keep) == before.filter(keep).push(changes.last()));
            assert(before.filter(keep).push(changes.last()).map_values(item)
                =~= before.filter(keep).map_values(item).push(
                change_item(changes.last(), changes.last().log_event->0),
            ));
        }
    } else {
        assert(changes.filter(keep).map_values(item) =~= change_items(changes));
    }
}

/// An item tells when, where and what: an event by its source, number and message, a log by its
/// program, each on one line of at most 240 characters.
pub proof fn item_tells_what_happened(e: EventLogEntry, change: FileChange, log: LogEvent)
    ensures
        event_item(e).at == e.timestamp.secs,
        event_item(e).source == "event_log"@,
        event_item(e).app == on_one_line(e.source@),
        event_item(e).summary == on_one_line(
            "Event "@ + decimal(e.event_id as nat) + ": "@ + e.message@,
        ),
        change_item(change, log).at == change.timestamp.secs,
        change_item(change, log).source == "app_log"@,
        change_item(change, log).app == on_one_line(log.program@),
        event_item(e).summary.len() <= 240 && event_item(e).app.len() <= 240,
        change_item(change, log).summary.len() <= 240,
{
}

/// The line that stands for a log is the first of its excerpts that tells what went wrong: one
/// that speaks of an error, a fatal one or an exception.
pub proof fn first_telling_line_stands_for_the_log(ls: Seq<Seq<char>>, i: int)
    requires
        0 <= i < ls.len(),
        ({
            let lower = ascii_lowercase(ls[i]);
            contains(lower, "error"@) || contains(lower, "fatal"@) || contains(
                lower,
                "exception"@,
            )
        }),
        forall|k: int|
            0 <= k < i ==> !contains(ascii_lowercase(#[trigger] ls[k]), "error"@) && !contains(
                ascii_lowercase(ls[k]),
                "fatal"@,
            ) && !contains(ascii_lowercase(ls[k]), "exception"@),
    ensures
        first_telling(ls) == Some(ls[i]),
    decreases ls.len(),
{
    if i > 0 {
        let rest = ls.skip(1);
        assert(!telling(ls[0]));
        assert(rest[i - 1] == ls[i]);
        assert forall|k: int| 0 <= k < i - 1 implies !contains(
            ascii_lowercase(#[trigger] rest[k]),
            "error"@,
        ) && !contains(ascii_lowercase(rest[k]), "fatal"@) && !contains(
            ascii_lowercase(rest[k]),
            "exception"@,
        ) by {
            assert(rest[k] == ls[k + 1]);
        }
        first_telling_line_stands_for_the_log(rest, i - 1);
    }
}

/// Of several excerpts the first with such a line gives it; without any, the first excerpt stands
/// for the log.
pub proof fn first_telling_excerpt_gives_the_line(snippets: Seq<Seq<char>>, i: int)
    ensures
        0 <= i < snippets.len() && first_telling(lines(snippets[i])) is Some && (forall|k: int|
            0 <= k < i ==> first_telling(lines(#[trigger] snippets[k])) is None) ==> headline(
            snippets,
        ) == first_telling(lines(snippets[i]))->0,
        snippets.len() > 0 && (forall|k: int|
            0 <= k < snippets.len() ==> first_telling(lines(#[trigger] snippets[k])) is None)
            ==> headline(snippets) == snippets[0],
        snippets.len() == 0 ==> headline(snippets) == "error written to its log"@,
{
    lemma_telling_excerpt(snippets, i);
}

proof fn lemma_telling_excerpt(snippets: Seq<Seq<char>>, i: int)
    ensures
        0 <= i < snippets.len() && first_telling(lines(snippets[i])) is Some && (forall|k: int|
            0 <= k < i ==> first_telling(lines(#[trigger] snippets[k])) is None)
            ==> first_telling_of(snippets) == first_telling(lines(snippets[i])),
        (forall|k: int|
            0 <= k < snippets.len() ==> first_telling(lines(#[trigger] snippets[k])) is None)
            ==> first_telling_of(snippets) is None,
    decreases snippets.len(),
{
    if snippets.len() > 0 {
        let rest = snippets.skip(1);
        lemma_telling_excerpt(rest, i - 1);
        if 0 < i < snippets.len() && forall|k: int|
            0 <= k < i ==> first_telling(lines(#[trigger] snippets[k])) is None {
            assert(first_telling(lines(snippets[0])) is None);
            assert(rest[i - 1] == snippets[i]);
            assert forall|k: int| 0 <= k < i - 1 implies first_telling(
                lines(#[trigger] rest[k]),
            ) is None by {
                assert(rest[k] == snippets[k + 1]);
            }
        }
        if forall|k: int|
            0 <= k < snippets.len() ==> first_telling(lines(#[trigger] snippets[k])) is None {
            assert(first_telling(lines(snippets[0])) is None);
            assert forall|k: int| 0 <= k < rest.len() implies first_telling(
                lines(#[trigger] rest[k]),
            ) is None by {
                assert(rest[k] == snippets[k + 1]);
            }
        }
    }
}

/// Two items are repeats of each other exactly where they say the same of the same place less
/// than ten minutes apart, whichever came first.
pub proof fn repeats_say_the_same_at_the_same_time(a: SignalModel, b: SignalModel)
    ensures
        repeats(a, b) <==> a.source == b.source && a.app == b.app && a.summary == b.summary && a.at
            - b.at < 600 && b.at - a.at < 600,
        repeats(a, b) == repeats(b, a),
{
}

/// An item that repeats nothing is listed first, and those before it follow in their order, up to
/// thirty; one that repeats something changes nothing.
pub proof fn new_item_is_listed_first(
    items: Seq<SignalModel>,
    dismissed: Seq<SignalModel>,
    item: SignalModel,
    i: int,
)
    requires
        items.len() <= 30,
    ensures
        0 <= i < items.len() && repeats(items[i], item) ==> listed_with(items, dismissed, item)
            == items,
        0 <= i < dismissed.len() && repeats(dismissed[i], item) ==> listed_with(
            items,
            dismissed,
            item,
        ) == items,
        (forall|k: int| 0 <= k < items.len() ==> !repeats(#[trigger] items[k], item)) && (forall|
            k: int,
        |
            0 <= k < dismissed.len() ==> !repeats(#[trigger] dismissed[k], item)) ==> {
            let after = listed_with(items, dismissed, item);
            &&& after.len() == (if items.len() < 30 {
                items.len() as int + 1
            } else {
                30
            })
            &&& after[0] == item
            &&& forall|k: int| 0 < k < after.len() ==> #[trigger] after[k] == items[k - 1]
        },
{
}

/// What a screen error's item says: that the window hangs, or its title and its text as far as
/// there is either.
pub proof fn screen_item_says_title_and_text(e: ScreenError)
    ensures
        e.hung ==> screen_summary(e) == "Stopped responding: "@ + e.title@,
        !e.hung && e.title@.len() == 0 ==> screen_summary(e) == e.text@,
        !e.hung && e.text@.len() == 0 ==> screen_summary(e) == e.title@,
        !e.hung && e.title@.len() > 0 && e.text@.len() > 0 ==> screen_summary(e) == e.title@
            + " — "@ + e.text@,
{
    if e.title@.len() == 0 && e.text@.len() == 0 {
        assert(e.title@ =~= e.text@);
    }
}

/// Clearing takes every item off and remembers it as dismissed, so that it does not come back.
pub proof fn cleared_items_are_remembered(feed: &mut Feed, r: usize, i: int)
    requires
        call_ensures(Feed::clear, (feed,), r),
    ensures
        r == old(feed).items@.len(),
        final(feed).items@.len() == 0,
        0 <= i < old(feed).items@.len() && old(feed).items@.len() <= 60 ==> signal_views(
            final(feed).dismissed@,
        ).contains(old(feed).items@[i]@),
{
    let gone = signal_views(old(feed).items@);
    let all = gone.reverse() + signal_views(old(feed).dismissed@);
    if 0 <= i < gone.len() && gone.len() <= 60 {
        let k = gone.len() - 1 - i;
        assert(gone.reverse()[k] == gone[i]);
        assert(all[k] == gone[i]);
        assert(signal_views(final(feed).dismissed@)[k] == gone[i]);
    }
}

/// Dismissing takes one item off, the first that is the same, and leaves the others in order; an
/// item that is not listed changes nothing.
pub proof fn dismissed_item_leaves_the_others(
    feed: &mut Feed,
    item: &SignalView,
    r: bool,
    i: int,
)
    requires
        call_ensures(Feed::dismiss, (feed, item), r),
    ensures
        !r ==> *final(feed) == *old(feed),
        0 <= i < old(feed).items@.len() && old(feed).items@[i]@ == item@ && (forall|k: int|
            0 <= k < i ==> (#[trigger] old(feed).items@[k])@ != item@) ==> r && final(feed).items@
            == old(feed).items@.remove(i),
        old(feed).items@.len() == 0 ==> !r,
{
    let items = signal_views(old(feed).items@);
    if 0 <= i < items.len() && old(feed).items@[i]@ == item@ && (forall|k: int|
        0 <= k < i ==> (#[trigger] old(feed).items@[k])@ != item@) {
        assert forall|k: int| 0 <= k < i implies (#[trigger] items[k]) != item@ by {
            assert(items[k] == old(feed).items@[k]@);
        }
        lemma_first_position(items, item@, i);
    }
}

proof fn lemma_first_position(items: Seq<SignalModel>, item: SignalModel, i: int)
    requires
        0 <= i < items.len(),
        items[i] == item,
        forall|k: int| 0 <= k < i ==> (#[trigger] items[k]) != item,
    ensures
        position(items, item) == Some(i),
    decreases items.len(),
{
    if i < items.len() - 1 {
        lemma_first_position(items.drop_last(), item, i);
    } else {
        lemma_no_position(items.drop_last(), item);
    }
}

proof fn lemma_no_position(items: Seq<SignalModel>, item: SignalModel)
    requires
        forall|k: int| 0 <= k < items.len() ==> (#[trigger] items[k]) != item,
    ensures
        position(items, item) is None,
    decreases items.len(),
{
    if items.len() > 0 {
        assert(items[items.len() - 1] != item);
        lemma_no_position(items.drop_last(), item);
    }
}

/// An item of the screen is told by its program and its time, and says whether it hung.
pub proof fn screen_item_is_of_its_report(e: &ScreenError, r: SignalView)
    requires
        call_ensures(screen_view, (e,), r),
    ensures
        r@.at == e.timestamp.secs && r@.app == e.app@,
        e.hung ==> r@.source == "hung"@,
        !e.hung ==> r@.source == "screen"@,
{
}

/// A line tells what went wrong where one of three words stands in it, in any ASCII case.
pub proof fn telling_words_tell(line: Seq<char>)
    ensures
        telling(line) <==> contains(ascii_lowercase(line), "error"@) || contains(
            ascii_lowercase(line),
            "fatal"@,
        ) || contains(ascii_lowercase(line), "exception"@),
{
}

/// Items come into the list one after the other, and one that repeats a listed or dismissed item
/// does not.
pub proof fn items_are_listed_one_after_the_other(
    items: Seq<SignalModel>,
    dismissed: Seq<SignalModel>,
    new: Seq<SignalModel>,
    item: SignalModel,
    i: int,
)
    ensures
        listed_with_all(items, dismissed, Seq::empty()) == items,
        listed_with_all(items, dismissed, new.push(item)) == listed_with(
            listed_with_all(items, dismissed, new),
            dismissed,
            item,
        ),
        0 <= i < items.len() && repeats(items[i], item) ==> listed_with_all(
            items,
            dismissed,
            seq![item],
        ) == items,
        0 <= i < dismissed.len() && repeats(dismissed[i], item) ==> listed_with_all(
            items,
            dismissed,
            seq![item],
        ) == items,
{
    assert(new.push(item).drop_last() =~= new);
    assert(seq![item].drop_last() =~= Seq::<SignalModel>::empty());
    let one = seq![item];
    assert(one.last() == item);
    assert(listed_with_all(items, dismissed, one.drop_last()) == items);
}

} // verus!
