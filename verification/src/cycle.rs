//! The decision loop: when it reacts, when it calls the model, and what it does with the
//! reply.

use crate::metric::{less, Amount, Metric};
use crate::models::{
    ClaudeDecision, EventLogEntry, FileChange, Problem, SignalSnapshot, SystemState,
};
use crate::proto::{AdvisorSettingsView, AdvisorStatus, DigestView};
use crate::routing::{cat, cleared_error};
use crate::state::{gaming_at, is_gaming_at, settle, settled, update_is_due, SvcState};
use crate::text::{
    contains, decimal, decimal_text, join, joined, occurs_at, opt_view,
    order_of_arrival_does_not_matter, ordered, push_text, put_in_order, same, sort_texts, text_le,
    total_len, trim, trimmed, views, what_stands_in_a_text_is_found,
};
use vstd::prelude::*;
use vstd::string::*;

verus! {

/// How long a reaction waits for more signals, in nanoseconds.
pub const REACTIVE_DEBOUNCE: u64 = 10 * 1_000_000_000;

/// The least time between the last pass and a reaction, in nanoseconds.
pub const REACTIVE_MIN_GAP: u64 = 60 * 1_000_000_000;

/// The longest time without an analysis, in nanoseconds.
pub const ANALYSIS_HEARTBEAT: u64 = 6 * 3600 * 1_000_000_000;

/// The time between two digests, in seconds.
pub const DIGEST_INTERVAL_SECS: i64 = 7 * 24 * 3600;

/// Escalations of one day, whatever they cost.
pub const MAX_ESCALATIONS_PER_DAY: u32 = 24;

/// What the loop itself remembers. Times are nanoseconds of a monotonic clock.
pub struct LoopState {
    /// Passes so far.
    pub cycle_count: u64,
    pub last_cycle_at: u64,
    /// When a reaction is due, if one is.
    pub react_at: Option<u64>,
    /// Whether a game ran at the last look.
    pub was_gaming: bool,
    /// The signals that were last analysed.
    pub last_fingerprint: Option<String>,
    /// When the last analysis finished, if one has.
    pub last_analysis_at: Option<u64>,
    pub analysis_running: bool,
}

// ── Reacting ──────────────────────────────────────────────────────────────────

/// A time some nanoseconds later, as far as the clock goes.
pub open spec fn later(at: u64, by: u64) -> u64 {
    if at + by > u64::MAX {
        u64::MAX
    } else {
        (at + by) as u64
    }
}

/// When a reaction to a signal that comes now is due: after a while in which more may come,
/// and not too soon after the last pass.
pub open spec fn reaction_due(now: u64, last_cycle_at: u64) -> u64 {
    if later(now, REACTIVE_DEBOUNCE) > later(last_cycle_at, REACTIVE_MIN_GAP) {
        later(now, REACTIVE_DEBOUNCE)
    } else {
        later(last_cycle_at, REACTIVE_MIN_GAP)
    }
}

/// Take a signal that asks for a reaction. One that is due already stays due.
pub fn on_trigger(lp: &mut LoopState, now: u64)
    ensures
        *final(lp) == (LoopState {
            react_at: Some(
                match old(lp).react_at {
                    Some(at) => at,
                    None => reaction_due(now, old(lp).last_cycle_at),
                },
            ),
            ..*old(lp)
        }),
{
    if lp.react_at.is_none() {
        let soon: u64 = now.saturating_add(REACTIVE_DEBOUNCE);
        let gap: u64 = lp.last_cycle_at.saturating_add(REACTIVE_MIN_GAP);
        lp.react_at = Some(
            if soon > gap {
                soon
            } else {
                gap
            },
        );
    }
}

/// A reaction waits for more signals, and keeps its distance from the last pass.
pub proof fn reactions_are_paced(now: u64, last_cycle_at: u64)
    requires
        now + REACTIVE_DEBOUNCE <= u64::MAX,
        last_cycle_at + REACTIVE_MIN_GAP <= u64::MAX,
    ensures
        reaction_due(now, last_cycle_at) >= now + REACTIVE_DEBOUNCE,
        reaction_due(now, last_cycle_at) >= last_cycle_at + REACTIVE_MIN_GAP,
{
}

/// Whether a loop is another with one more pass begun. A reaction that is due is covered by
/// the pass, unless an analysis is under way.
pub open spec fn pass_begun(before: LoopState, after: LoopState, now: u64) -> bool {
    &&& after == (LoopState {
        cycle_count: after.cycle_count,
        last_cycle_at: now,
        react_at: if before.analysis_running {
            before.react_at
        } else {
            None
        },
        ..before
    })
    &&& after.cycle_count == (if before.cycle_count == u64::MAX {
        0
    } else {
        before.cycle_count + 1
    })
}

/// Start a pass; whether it is one that looks for new directories as well. A pass covers a
/// reaction that is due, unless an analysis is under way and the pass will not make one.
pub fn begin_pass(lp: &mut LoopState, now: u64) -> (r: bool)
    ensures
        pass_begun(*old(lp), *final(lp), now),
        r == (final(lp).cycle_count % 20 == 0),
{
    lp.cycle_count = if lp.cycle_count == u64::MAX {
        0
    } else {
        lp.cycle_count + 1
    };
    lp.last_cycle_at = now;
    if !lp.analysis_running {
        lp.react_at = None;
    }
    lp.cycle_count % 20 == 0
}

/// Notice that a game ended without a word, as when the tray crashed; whether it did. What
/// was seen meanwhile is then analysed anew.
pub fn reconcile_gaming(lp: &mut LoopState, st: &SvcState, now: i64) -> (r: bool)
    ensures
        r == (old(lp).was_gaming && !gaming_at(*st, now)),
        *final(lp) == (LoopState {
            was_gaming: gaming_at(*st, now),
            last_fingerprint: if r {
                None
            } else {
                old(lp).last_fingerprint
            },
            ..*old(lp)
        }),
{
    let gaming = is_gaming_at(st, now);
    let ended = lp.was_gaming && !gaming;
    if ended {
        lp.last_fingerprint = None;
    }
    lp.was_gaming = gaming;
    ended
}

/// Whether a digest is to be made: none is being made, no game runs, and none was made for
/// a week.
pub fn digest_due(st: &SvcState, now: i64) -> (r: bool)
    ensures
        r == digest_is_due(*st, now),
{
    !st.digest_running && !is_gaming_at(st, now) && (st.last_digest_at == 0 || now as i128
        - st.last_digest_at as i128 >= DIGEST_INTERVAL_SECS as i128)
}

/// Start a digest if one is due; whether it is. A pass comes here only where it goes that
/// far.
pub fn begin_digest(st: &mut SvcState, now: i64) -> (r: bool)
    ensures
        r == digest_is_due(*old(st), now),
        *final(st) == with_digest(*old(st), r),
{
    let due = digest_due(st, now);
    if due {
        st.digest_running = true;
    }
    due
}

/// Take a digest that was made. An empty one is a failure: the next is tried in a week, and
/// the one that is shown stays; whether there is a new one to show.
pub fn digest_done(st: &mut SvcState, view: DigestView) -> (r: bool)
    ensures
        r == (view.text@.len() > 0),
        *final(st) == (SvcState {
            digest_running: false,
            last_digest_at: view.generated_at,
            digest: if r {
                Some(view)
            } else {
                old(st).digest
            },
            ..*old(st)
        }),
{
    st.digest_running = false;
    st.last_digest_at = view.generated_at;
    if view.text.as_str().is_empty() {
        return false;
    }
    st.digest = Some(view);
    true
}

// ── Calling the model ─────────────────────────────────────────────────────────

/// The part of a log event that is worth analysing.
pub open spec fn change_part(change: FileChange) -> Seq<Seq<char>> {
    match change.log_event {
        Some(e) => if e.actionable() {
            seq![
                "F|"@ + e.log_path@ + "|"@ + e.severity@ + "|"@ + decimal(
                    e.error_snippets@.len(),
                ),
            ]
        } else {
            Seq::empty()
        },
        None => Seq::empty(),
    }
}

/// The parts of the log events that are worth analysing.
pub open spec fn change_parts(changes: Seq<FileChange>) -> Seq<Seq<char>>
    decreases changes.len(),
{
    if changes.len() == 0 {
        Seq::empty()
    } else {
        change_parts(changes.drop_last()) + change_part(changes.last())
    }
}

/// The part of an entry that is worth analysing.
pub open spec fn entry_part(e: EventLogEntry) -> Seq<Seq<char>> {
    if e.actionable() {
        seq!["E|"@ + e.level@ + "|"@ + e.source@ + "|"@ + decimal(e.event_id as nat)]
    } else {
        Seq::empty()
    }
}

/// The parts of the entries that are worth analysing.
pub open spec fn entry_parts(entries: Seq<EventLogEntry>) -> Seq<Seq<char>>
    decreases entries.len(),
{
    if entries.len() == 0 {
        Seq::empty()
    } else {
        entry_parts(entries.drop_last()) + entry_part(entries.last())
    }
}

/// Ninety.
pub open spec fn ninety() -> Metric {
    Metric { bits: 0x42b4_0000 }
}

/// A name, where a reading is above ninety.
pub open spec fn above_ninety(m: Metric, name: Seq<char>) -> Seq<Seq<char>> {
    if less(ninety(), m) {
        seq![name]
    } else {
        Seq::empty()
    }
}

/// The parts of the readings that are worth analysing.
pub open spec fn load_parts(sys: SystemState) -> Seq<Seq<char>> {
    above_ninety(sys.cpu_usage_percent, "CPU>90"@) + above_ninety(
        sys.memory_usage_percent,
        "MEM>90"@,
    ) + above_ninety(sys.disk_usage_percent, "DISK>90"@)
}

/// All parts of a snapshot that are worth analysing.
pub open spec fn actionable_parts(snap: SignalSnapshot) -> Seq<Seq<char>> {
    change_parts(snap.file_changes@) + entry_parts(snap.event_log@) + snap.system_state.faults()
        + load_parts(snap.system_state)
}

/// What identifies the signals of a snapshot that are worth analysing, in order; none where
/// nothing is.
pub open spec fn fingerprint_of(snap: SignalSnapshot) -> Option<Seq<char>> {
    if actionable_parts(snap).len() == 0 {
        None
    } else {
        Some(join(ordered(actionable_parts(snap)), "\n"@))
    }
}

fn push_above(parts: &mut Vec<String>, m: Metric, name: &str)
    ensures
        views(final(parts)@) == views(old(parts)@) + above_ninety(m, name@),
{
    let limit = Metric { bits: 0x42b4_0000 };
    if limit.less_than(m) {
        push_text(parts, name);
        assert(views(parts@) =~= views(old(parts)@) + above_ninety(m, name@));
    } else {
        assert(views(parts@) + Seq::<Seq<char>>::empty() =~= views(parts@));
    }
}

/// What identifies the signals of a snapshot that are worth analysing. The same signals
/// have the same identity, so that nothing is analysed twice.
pub fn actionable_fingerprint(snap: &SignalSnapshot) -> (r: Option<String>)
    ensures
        opt_view(r) == fingerprint_of(*snap),
{
    let mut parts: Vec<String> = Vec::new();
    assert(views(parts@) =~= Seq::<Seq<char>>::empty());
    let changes = &snap.file_changes;
    let mut i: usize = 0;
    assert(changes@.take(0) =~= Seq::<FileChange>::empty());
    while i < changes.len()
        invariant
            i <= changes@.len(),
            views(parts@) == change_parts(changes@.take(i as int)),
        decreases changes@.len() - i,
    {
        assert(changes@.take(i + 1).drop_last() =~= changes@.take(i as int));
        assert(changes@.take(i + 1).last() == changes@[i as int]);
        let ghost before = views(parts@);
        if let Some(e) = &changes[i].log_event {
            if e.is_actionable() {
                let mut part = cat("F|", e.log_path.as_str());
                part.append("|");
                part.append(e.severity.as_str());
                part.append("|");
                let count = decimal_text(e.error_snippets.len() as u64);
                part.append(count.as_str());
                push_text(&mut parts, part.as_str());
            }
        }
        assert(views(parts@) =~= before + change_part(changes@[i as int]));
        i += 1;
    }
    assert(changes@.take(changes@.len() as int) =~= changes@);
    let ghost first = change_parts(changes@);
    let entries = &snap.event_log;
    let mut k: usize = 0;
    assert(entries@.take(0) =~= Seq::<EventLogEntry>::empty());
    assert(views(parts@) =~= first + entry_parts(entries@.take(0)));
    while k < entries.len()
        invariant
            k <= entries@.len(),
            views(parts@) == first + entry_parts(entries@.take(k as int)),
        decreases entries@.len() - k,
    {
        assert(entries@.take(k + 1).drop_last() =~= entries@.take(k as int));
        assert(entries@.take(k + 1).last() == entries@[k as int]);
        let ghost before = entry_parts(entries@.take(k as int));
        let e = &entries[k];
        if e.is_actionable() {
            let mut part = cat("E|", e.level.as_str());
            part.append("|");
            part.append(e.source.as_str());
            part.append("|");
            let number = decimal_text(e.event_id as u64);
            part.append(number.as_str());
            push_text(&mut parts, part.as_str());
        }
        assert(views(parts@) =~= first + (before + entry_part(entries@[k as int])));
        k += 1;
    }
    assert(entries@.take(entries@.len() as int) =~= entries@);
    let ghost second = views(parts@);
    let sys = &snap.system_state;
    let mut faults = sys.fault_parts();
    let ghost had = parts@;
    let ghost more = faults@;
    parts.append(&mut faults);
    assert(views(parts@) =~= second + views(more));
    push_above(&mut parts, sys.cpu_usage_percent, "CPU>90");
    push_above(&mut parts, sys.memory_usage_percent, "MEM>90");
    push_above(&mut parts, sys.disk_usage_percent, "DISK>90");
    assert(views(parts@) =~= actionable_parts(*snap));
    assert(views(parts@).len() == parts@.len());
    if parts.len() == 0 {
        return None;
    }
    let sorted = sort_texts(parts);
    Some(joined(&sorted, "\n"))
}

/// The order in which signals are listed does not change their identity.
pub proof fn fingerprint_ignores_the_order_of_signals(a: SignalSnapshot, b: SignalSnapshot)
    requires
        actionable_parts(a).to_multiset() == actionable_parts(b).to_multiset(),
    ensures
        fingerprint_of(a) == fingerprint_of(b),
{
    broadcast use vstd::seq_lib::group_to_multiset_ensures;

    assert(actionable_parts(a).len() == actionable_parts(a).to_multiset().len());
    assert(actionable_parts(b).len() == actionable_parts(b).to_multiset().len());
    order_of_arrival_does_not_matter(actionable_parts(a), actionable_parts(b));
}

/// Whether the model is called: something worth it changed, or it was not called for a long
/// time, or ever.
pub open spec fn worth_analysing(
    lp: LoopState,
    fingerprint: Option<Seq<char>>,
    now: u64,
) -> bool {
    let changed = fingerprint is Some && fingerprint != opt_view(lp.last_fingerprint);
    let due = match lp.last_analysis_at {
        Some(at) => now - at >= ANALYSIS_HEARTBEAT,
        None => true,
    };
    changed || due
}

/// Whether the model is called. Where it is not, the service settles; and where nothing is
/// worth analysing any more, what was analysed last is forgotten, so that the same problem
/// counts as new when it comes again.
pub fn gate_analysis(
    lp: &mut LoopState,
    st: &mut SvcState,
    fingerprint: &Option<String>,
    now: u64,
    now_secs: i64,
) -> (r: bool)
    ensures
        r == worth_analysing(*old(lp), opt_view(*fingerprint), now),
        r ==> *final(lp) == *old(lp) && *final(st) == *old(st),
        !r ==> {
            &&& *final(lp) == (LoopState {
                last_fingerprint: if *fingerprint is None {
                    None
                } else {
                    old(lp).last_fingerprint
                },
                ..*old(lp)
            })
            &&& at_rest(*old(st), *final(st), now_secs)
        },
{
    let changed = match (fingerprint, &lp.last_fingerprint) {
        (Some(new), Some(old)) => !same(new.as_str(), old.as_str()),
        (Some(_), None) => true,
        (None, _) => false,
    };
    let due = match lp.last_analysis_at {
        Some(at) => now >= at && now - at >= ANALYSIS_HEARTBEAT,
        None => true,
    };
    if changed || due {
        return true;
    }
    if fingerprint.is_none() {
        lp.last_fingerprint = None;
    }
    settle(st, now_secs);
    if !st.paused {
        st.error = None;
    }
    false
}

/// The same signals as last time are not analysed again before the heartbeat.
pub proof fn unchanged_signals_are_not_analysed_again(
    lp: LoopState,
    fingerprint: Option<Seq<char>>,
    now: u64,
)
    requires
        fingerprint is None || fingerprint == opt_view(lp.last_fingerprint),
        lp.last_analysis_at is Some,
        now - lp.last_analysis_at->0 < ANALYSIS_HEARTBEAT,
    ensures
        !worth_analysing(lp, fingerprint, now),
{
}

/// Any change that is worth analysing is analysed.
pub proof fn changes_are_analysed(lp: LoopState, fingerprint: Seq<char>, now: u64)
    requires
        opt_view(lp.last_fingerprint) != Some(fingerprint),
    ensures
        worth_analysing(lp, Some(fingerprint), now),
{
}

/// Pass over an analysis because one is under way.
pub fn analysis_in_flight(st: &mut SvcState, now: i64)
    ensures
        at_rest(*old(st), *final(st), now),
{
    settle(st, now);
    if !st.paused {
        st.error = None;
    }
}

/// What was learned and the trend of the load, one after the other, as far as there is
/// either.
pub open spec fn context_of(learned: Option<Seq<char>>, trend: Option<Seq<char>>) -> Option<Seq<char>> {
    match (learned, trend) {
        (Some(l), Some(t)) => Some(l + "\n\n"@ + t),
        (Some(l), None) => Some(l),
        (None, t) => t,
    }
}

/// What was learned and the trend of the load, as one text for the model.
pub fn learned_section(learned: Option<String>, trend: Option<String>) -> (r: Option<String>)
    ensures
        opt_view(r) == context_of(opt_view(learned), opt_view(trend)),
{
    match (learned, trend) {
        (Some(l), Some(t)) => {
            let mut text = l;
            text.append("\n\n");
            text.append(t.as_str());
            Some(text)
        },
        (Some(l), None) => Some(l),
        (None, t) => t,
    }
}

/// Begin an analysis on a day: where the day is another than the counts belong to, they
/// start anew.
pub fn begin_analysis(lp: &mut LoopState, st: &mut SvcState, today: &str)
    ensures
        *final(lp) == (LoopState { analysis_running: true, ..*old(lp) }),
        analysis_begun(*old(st), *final(st), today@),
        day_count(*final(st)) == count_begun(day_count(*old(st)), today@),
{
    if !same(st.advisor_spend_date.as_str(), today) {
        st.advisor_spend_date = today.to_owned();
        st.advisor_spent_today = Amount { bits: 0 };
        st.advisor_escalations_today = 0;
    }
    lp.analysis_running = true;
}

// ── The order of a pass ───────────────────────────────────────────────────────

/// How far a pass of the loop goes.
#[derive(Debug, Clone, Copy, PartialEq, Eq, Structural)]
pub enum PassStep {
    /// Nothing is collected and nothing is started.
    Nothing,
    /// The signals are collected and shown.
    CollectOnly,
    /// As before, and a digest is started if one is due; the service settles, since an
    /// analysis is under way.
    Settle { digest: bool },
    /// As before, and the signals decide whether an analysis is started.
    Consider { digest: bool },
}

/// Whether a digest is to be made: none is being made, no game runs, and none was made for
/// a week.
pub open spec fn digest_is_due(st: SvcState, now: i64) -> bool {
    !st.digest_running && !gaming_at(st, now) && (st.last_digest_at == 0 || now
        - st.last_digest_at >= DIGEST_INTERVAL_SECS)
}

/// How far a pass goes: a paused service does nothing, one without a provider only collects,
/// and while an analysis is under way no other is started.
pub open spec fn pass_plan(lp: LoopState, st: SvcState, has_provider: bool, now: i64) -> PassStep {
    if st.paused {
        PassStep::Nothing
    } else if !has_provider {
        PassStep::CollectOnly
    } else if lp.analysis_running {
        PassStep::Settle { digest: digest_is_due(st, now) }
    } else {
        PassStep::Consider { digest: digest_is_due(st, now) }
    }
}

/// How far a pass goes.
pub fn pass_step(lp: &LoopState, st: &SvcState, has_provider: bool, now: i64) -> (r: PassStep)
    ensures
        r == pass_plan(*lp, *st, has_provider, now),
        st.paused ==> r is Nothing,
        !st.paused && !has_provider ==> r is CollectOnly,
        lp.analysis_running ==> !(r is Consider),
{
    if st.paused {
        PassStep::Nothing
    } else if !has_provider {
        PassStep::CollectOnly
    } else {
        let digest = digest_due(st, now);
        if lp.analysis_running {
            PassStep::Settle { digest }
        } else {
            PassStep::Consider { digest }
        }
    }
}

/// What a pass starts.
#[derive(Debug, Clone, Copy, PartialEq, Eq, Structural)]
pub struct PassOutcome {
    pub digest: bool,
    pub analysis: bool,
}

/// The state once a digest has been started, where it has.
pub open spec fn with_digest(st: SvcState, started: bool) -> SvcState {
    SvcState { digest_running: st.digest_running || started, ..st }
}

/// Whether a state is another that has come to rest.
pub open spec fn at_rest(before: SvcState, after: SvcState, now: i64) -> bool {
    &&& after == (SvcState { status: after.status, error: cleared_error(before), ..before })
    &&& after.status@ == settled(before, now)
}

/// Whether a state is another with an analysis begun on a day: where the day is another than
/// the advisor's counts belong to, they start anew.
pub open spec fn analysis_begun(before: SvcState, after: SvcState, today: Seq<char>) -> bool {
    if before.advisor_spend_date@ == today {
        after == before
    } else {
        &&& after == (SvcState {
            advisor_spend_date: after.advisor_spend_date,
            advisor_spent_today: Amount { bits: 0 },
            advisor_escalations_today: 0,
            ..before
        })
        &&& after.advisor_spend_date@ == today
    }
}

/// Go through a pass once its signals are collected: start a digest if one is due, and an
/// analysis if none is under way and the signals are worth it. Where no analysis is started
/// the service settles.
pub fn run_pass(
    lp: &mut LoopState,
    st: &mut SvcState,
    has_provider: bool,
    fingerprint: &Option<String>,
    today: &str,
    now: u64,
    now_secs: i64,
) -> (r: PassOutcome)
    ensures
        match pass_plan(*old(lp), *old(st), has_provider, now_secs) {
            PassStep::Nothing | PassStep::CollectOnly => {
                &&& !r.digest && !r.analysis
                &&& *final(lp) == *old(lp)
                &&& *final(st) == *old(st)
            },
            PassStep::Settle { digest } => {
                &&& r == (PassOutcome { digest, analysis: false })
                &&& *final(lp) == *old(lp)
                &&& at_rest(with_digest(*old(st), digest), *final(st), now_secs)
            },
            PassStep::Consider { digest } => {
                &&& r == (PassOutcome {
                    digest,
                    analysis: worth_analysing(*old(lp), opt_view(*fingerprint), now),
                })
                &&& if r.analysis {
                    &&& *final(lp) == (LoopState { analysis_running: true, ..*old(lp) })
                    &&& analysis_begun(with_digest(*old(st), digest), *final(st), today@)
                } else {
                    &&& *final(lp) == (LoopState {
                        last_fingerprint: if *fingerprint is None {
                            None
                        } else {
                            old(lp).last_fingerprint
                        },
                        ..*old(lp)
                    })
                    &&& at_rest(with_digest(*old(st), digest), *final(st), now_secs)
                }
            },
        },
{
    match pass_step(lp, st, has_provider, now_secs) {
        PassStep::Nothing | PassStep::CollectOnly => PassOutcome { digest: false, analysis: false },
        PassStep::Settle { .. } => {
            let digest = begin_digest(st, now_secs);
            analysis_in_flight(st, now_secs);
            PassOutcome { digest, analysis: false }
        },
        PassStep::Consider { .. } => {
            let digest = begin_digest(st, now_secs);
            let analysis = gate_analysis(lp, st, fingerprint, now, now_secs);
            if analysis {
                begin_analysis(lp, st, today);
            }
            PassOutcome { digest, analysis }
        },
    }
}

/// A paused service starts nothing on its own: no digest, no analysis and no update check.
pub proof fn paused_service_starts_nothing(
    lp: LoopState,
    st: SvcState,
    has_provider: bool,
    enabled: bool,
    interval: i64,
    last_run: i64,
    now: i64,
)
    requires
        st.paused,
    ensures
        pass_plan(lp, st, has_provider, now) is Nothing,
        !update_is_due(enabled, interval, last_run, st, now),
{
}

/// When the reaction that is due is to be run: while an analysis is under way it waits for
/// its end.
pub fn reaction_at(lp: &LoopState) -> (r: Option<u64>)
    ensures
        r == (if lp.analysis_running {
            None
        } else {
            lp.react_at
        }),
{
    if lp.analysis_running {
        None
    } else {
        lp.react_at
    }
}

/// A reaction that comes due while an analysis is under way is neither lost nor run: a pass
/// keeps it, and it is run once the analysis has ended.
pub proof fn reaction_outlasts_an_analysis(before: LoopState, after: LoopState, now: u64)
    requires
        before.analysis_running,
        pass_begun(before, after, now),
    ensures
        after.react_at == before.react_at,
        after.analysis_running,
{
}

// ── The advisor ───────────────────────────────────────────────────────────────

/// The advisor's settings.
pub struct AdvisorConfig {
    pub enabled: bool,
    pub escalation_model: String,
    pub escalation_effort: String,
    pub low_confidence_threshold: Metric,
}

/// Whether every problem's confidence is below a threshold that zero is below too.
pub open spec fn all_below(problems: Seq<Problem>, threshold: Metric) -> bool {
    &&& less(Metric { bits: 0 }, threshold)
    &&& forall|i: int|
        0 <= i < problems.len() ==> !worthy_confidence(
            (#[trigger] problems[i]).confidence,
            threshold,
        )
}

/// Whether a confidence is at the threshold or above; a not-a-number is not.
pub open spec fn worthy_confidence(c: Metric, threshold: Metric) -> bool {
    crate::metric::rank(c.bits) is Some && !less(c, threshold)
}

/// Why an analysis is to be made again with more effort, if it is: the advisor is on, has a
/// stronger model or effort to offer, has not been used too often today, and the model
/// asked for it or was not confident of any of its findings.
pub open spec fn escalation(
    decision: ClaudeDecision,
    cfg: AdvisorConfig,
    escalations_today: u32,
) -> Option<Seq<char>> {
    if !cfg.enabled || (trim(cfg.escalation_model@).len() == 0 && trim(
        cfg.escalation_effort@,
    ).len() == 0) || escalations_today >= MAX_ESCALATIONS_PER_DAY {
        None
    } else if decision.needs_deeper_analysis {
        Some("the agent flagged the signals as ambiguous"@)
    } else if decision.problems@.len() > 0 && all_below(
        decision.problems@,
        cfg.low_confidence_threshold,
    ) {
        Some("confidence was low"@)
    } else {
        None
    }
}

fn is_worthy(c: Metric, threshold: Metric) -> (r: bool)
    ensures
        r == worthy_confidence(c, threshold),
{
    let zero = Metric { bits: 0 };
    let number = c.less_than(zero) || zero.less_than(c) || c.bits == 0 || c.bits == 0x8000_0000;
    number && !c.less_than(threshold)
}

/// Why an analysis is to be made again with more effort, if it is.
pub fn should_escalate(
    decision: &ClaudeDecision,
    cfg: &AdvisorConfig,
    escalations_today: u32,
) -> (r: Option<&'static str>)
    ensures
        match r {
            Some(reason) => escalation(*decision, *cfg, escalations_today) == Some(reason@),
            None => escalation(*decision, *cfg, escalations_today) is None,
        },
{
    if !cfg.enabled {
        return None;
    }
    let model = trimmed(cfg.escalation_model.as_str());
    let effort = trimmed(cfg.escalation_effort.as_str());
    if model.as_str().is_empty() && effort.as_str().is_empty() {
        return None;
    }
    if escalations_today >= MAX_ESCALATIONS_PER_DAY {
        return None;
    }
    if decision.needs_deeper_analysis {
        return Some("the agent flagged the signals as ambiguous");
    }
    if decision.problems.len() == 0 {
        return None;
    }
    let zero = Metric { bits: 0 };
    if !zero.less_than(cfg.low_confidence_threshold) {
        return None;
    }
    let mut i: usize = 0;
    while i < decision.problems.len()
        invariant
            i <= decision.problems@.len(),
            decision.problems@.len() > 0,
            cfg.enabled,
            !decision.needs_deeper_analysis,
            escalations_today < MAX_ESCALATIONS_PER_DAY,
            less(Metric { bits: 0 }, cfg.low_confidence_threshold),
            forall|k: int|
                0 <= k < i ==> !worthy_confidence(
                    (#[trigger] decision.problems@[k]).confidence,
                    cfg.low_confidence_threshold,
                ),
        decreases decision.problems@.len() - i,
    {
        if is_worthy(decision.problems[i].confidence, cfg.low_confidence_threshold) {
            return None;
        }
        i += 1;
    }
    Some("confidence was low")
}

/// The advisor does not escalate once the day's count is full, nor while it is off.
pub proof fn full_day_is_not_escalated(
    decision: ClaudeDecision,
    cfg: AdvisorConfig,
    escalations_today: u32,
)
    requires
        escalation(decision, cfg, escalations_today) is Some,
    ensures
        cfg.enabled,
        escalations_today < MAX_ESCALATIONS_PER_DAY,
{
}

// ── The advisor's days ────────────────────────────────────────────────────────

/// How many second passes went well, and on which day.
pub struct DayCount {
    pub day: Seq<char>,
    pub count: int,
}

/// The count that a state holds.
pub open spec fn day_count(st: SvcState) -> DayCount {
    DayCount { day: st.advisor_spend_date@, count: st.advisor_escalations_today as int }
}

/// What an analysis adds to the count.
pub open spec fn second_pass(escalated: bool) -> int {
    if escalated {
        1
    } else {
        0
    }
}

/// The count once an analysis has begun on a day.
pub open spec fn count_begun(c: DayCount, today: Seq<char>) -> DayCount {
    if c.day == today {
        c
    } else {
        DayCount { day: today, count: 0 }
    }
}

/// The count once an analysis has ended on a day.
pub open spec fn count_ended(c: DayCount, today: Seq<char>, escalated: bool) -> DayCount {
    if c.day == today {
        DayCount { day: today, count: c.count + second_pass(escalated) }
    } else {
        DayCount { day: today, count: second_pass(escalated) }
    }
}

/// One analysis: the days on which it began and ended, and whether it had a second pass that
/// went well.
pub struct Analysed {
    pub began: Seq<char>,
    pub ended: Seq<char>,
    pub escalated: bool,
}

/// The count after some analyses, one after the other.
pub open spec fn counted(start: DayCount, runs: Seq<Analysed>) -> DayCount
    decreases runs.len(),
{
    if runs.len() == 0 {
        start
    } else {
        let run = runs.last();
        count_ended(
            count_begun(counted(start, runs.drop_last()), run.began),
            run.ended,
            run.escalated,
        )
    }
}

/// Whether each second pass was made while the day's count was not full.
pub open spec fn escalated_in_turn(start: DayCount, runs: Seq<Analysed>) -> bool
    decreases runs.len(),
{
    runs.len() == 0 || {
        &&& escalated_in_turn(start, runs.drop_last())
        &&& runs.last().escalated ==> count_begun(
            counted(start, runs.drop_last()),
            runs.last().began,
        ).count < MAX_ESCALATIONS_PER_DAY
    }
}

/// Whether a day has been come to.
pub open spec fn day_seen(start: DayCount, runs: Seq<Analysed>, day: Seq<char>) -> bool
    decreases runs.len(),
{
    if runs.len() == 0 {
        start.day == day
    } else {
        runs.last().began == day || runs.last().ended == day || day_seen(
            start,
            runs.drop_last(),
            day,
        )
    }
}

/// Whether no day that is over comes back.
pub open spec fn days_go_by(start: DayCount, runs: Seq<Analysed>) -> bool
    decreases runs.len(),
{
    runs.len() == 0 || {
        let before = runs.drop_last();
        let run = runs.last();
        &&& days_go_by(start, before)
        &&& run.began == counted(start, before).day || !day_seen(start, before, run.began)
        &&& run.ended == run.began || !day_seen(start, before, run.ended)
    }
}

/// The second passes of a day: those that were counted before, and those that ended on it.
pub open spec fn passes_of_day(start: DayCount, runs: Seq<Analysed>, day: Seq<char>) -> int
    decreases runs.len(),
{
    if runs.len() == 0 {
        if start.day == day {
            start.count
        } else {
            0
        }
    } else {
        passes_of_day(start, runs.drop_last(), day) + (if runs.last().ended == day {
            second_pass(runs.last().escalated)
        } else {
            0
        })
    }
}

proof fn lemma_unseen_day_is_empty(start: DayCount, runs: Seq<Analysed>, day: Seq<char>)
    requires
        !day_seen(start, runs, day),
    ensures
        passes_of_day(start, runs, day) == 0,
    decreases runs.len(),
{
    if runs.len() > 0 {
        lemma_unseen_day_is_empty(start, runs.drop_last(), day);
    }
}

/// The count is that of the second passes of its day, however many analyses there were and
/// whether or not the day changed while one ran.
pub proof fn count_is_of_its_day(start: DayCount, runs: Seq<Analysed>)
    requires
        days_go_by(start, runs),
    ensures
        counted(start, runs).count == passes_of_day(start, runs, counted(start, runs).day),
    decreases runs.len(),
{
    if runs.len() > 0 {
        let before = runs.drop_last();
        let run = runs.last();
        count_is_of_its_day(start, before);
        if run.began != counted(start, before).day {
            lemma_unseen_day_is_empty(start, before, run.began);
        }
        if run.ended != run.began {
            lemma_unseen_day_is_empty(start, before, run.ended);
        }
    }
}

/// No day has more second passes than a day allows.
pub proof fn escalations_of_a_day_are_bounded(
    start: DayCount,
    runs: Seq<Analysed>,
    day: Seq<char>,
)
    requires
        0 <= start.count <= MAX_ESCALATIONS_PER_DAY,
        days_go_by(start, runs),
        escalated_in_turn(start, runs),
    ensures
        0 <= passes_of_day(start, runs, day) <= MAX_ESCALATIONS_PER_DAY,
    decreases runs.len(),
{
    if runs.len() > 0 {
        let before = runs.drop_last();
        let run = runs.last();
        escalations_of_a_day_are_bounded(start, before, day);
        if run.ended == day {
            count_is_of_its_day(start, before);
            if run.began != counted(start, before).day {
                lemma_unseen_day_is_empty(start, before, run.began);
            }
            if run.ended != run.began {
                lemma_unseen_day_is_empty(start, before, run.ended);
            }
        }
    }
}

// ── The reply ─────────────────────────────────────────────────────────────────

/// An analysis that failed: a paused service stays paused, any other shows the error.
pub fn analysis_failed(lp: &mut LoopState, st: &mut SvcState, e: &str)
    ensures
        *final(lp) == (LoopState { analysis_running: false, ..*old(lp) }),
        *final(st) == (SvcState {
            status: final(st).status,
            error: final(st).error,
            ..*old(st)
        }),
        final(st).status@ == (if old(st).paused {
            "Paused"@
        } else {
            "Error"@
        }),
        opt_view(final(st).error) == Some("AI: "@ + e@),
{
    lp.analysis_running = false;
    st.status = if st.paused {
        "Paused".to_owned()
    } else {
        "Error".to_owned()
    };
    st.error = Some(cat("AI: ", e));
}

/// A second pass, with more effort, that went well.
pub struct DeeperPass {
    /// Why it was made.
    pub reason: String,
    pub decision: ClaudeDecision,
    /// What the day has spent on such passes with this one.
    pub spent_today: Amount,
    /// What this one spent.
    pub cost: Amount,
}

/// What an analysis comes to: the findings of its last pass, and the advisor's counts. Only
/// a second pass that went well counts.
pub fn conclude_analysis(
    fingerprint: Option<String>,
    first: ClaudeDecision,
    deeper: Option<DeeperPass>,
    cfg: &AdvisorConfig,
    settings: AdvisorSettingsView,
    spent_before: Amount,
    escalations_before: u32,
) -> (r: (ClaudeDecision, AnalysisTotals))
    requires
        deeper is Some ==> escalations_before < MAX_ESCALATIONS_PER_DAY,
    ensures
        r.1.fingerprint == fingerprint,
        r.1.analysis@ == r.0.analysis@,
        r.1.advisor.enabled == cfg.enabled,
        r.1.advisor.settings == settings,
        r.1.advisor.spent_today_usd == r.1.spent_today,
        escalations_before <= MAX_ESCALATIONS_PER_DAY ==> r.1.escalations_today
            <= MAX_ESCALATIONS_PER_DAY,
        match deeper {
            Some(pass) => {
                &&& r.0 == pass.decision
                &&& r.1.advisor.escalated
                &&& r.1.advisor.escalation_model@ == cfg.escalation_model@
                &&& r.1.advisor.reason == pass.reason
                &&& r.1.spent_today == pass.spent_today
                &&& r.1.escalations_today == escalations_before + 1
                &&& r.1.escalation_cost == pass.cost
            },
            None => {
                &&& r.0 == first
                &&& !r.1.advisor.escalated
                &&& r.1.advisor.escalation_model@.len() == 0
                &&& r.1.advisor.reason@.len() == 0
                &&& r.1.spent_today == spent_before
                &&& r.1.escalations_today == escalations_before
                &&& r.1.escalation_cost == (Amount { bits: 0 })
            },
        },
{
    let (decision, advisor, spent_today, escalations_today, escalation_cost) = match deeper {
        Some(pass) => (
            pass.decision,
            AdvisorStatus {
                enabled: cfg.enabled,
                escalated: true,
                escalation_model: cfg.escalation_model.clone(),
                reason: pass.reason,
                spent_today_usd: pass.spent_today,
                settings,
            },
            pass.spent_today,
            escalations_before + 1,
            pass.cost,
        ),
        None => (
            first,
            AdvisorStatus {
                enabled: cfg.enabled,
                escalated: false,
                escalation_model: String::new(),
                reason: String::new(),
                spent_today_usd: spent_before,
                settings,
            },
            spent_before,
            escalations_before,
            Amount { bits: 0 },
        ),
    };
    let analysis = decision.analysis.clone();
    (
        decision,
        AnalysisTotals {
            fingerprint,
            analysis,
            advisor,
            spent_today,
            escalations_today,
            escalation_cost,
        },
    )
}

/// What an analysis that went well says besides its findings.
pub struct AnalysisTotals {
    pub fingerprint: Option<String>,
    pub analysis: String,
    pub advisor: AdvisorStatus,
    /// The day's counts with this analysis.
    pub spent_today: Amount,
    pub escalations_today: u32,
    /// What this analysis alone spent on escalating.
    pub escalation_cost: Amount,
}

/// The advisor's state with what one analysis says; what the user set meanwhile stays.
pub open spec fn advisor_after(before: Option<AdvisorStatus>, new: AdvisorStatus) -> AdvisorStatus {
    match before {
        Some(a) => AdvisorStatus {
            escalated: new.escalated,
            escalation_model: new.escalation_model,
            reason: new.reason,
            spent_today_usd: new.spent_today_usd,
            ..a
        },
        None => new,
    }
}

/// Fold in an analysis that went well. Where the day changed while it ran, only what it
/// spent itself counts for the new day.
pub fn analysis_succeeded(
    lp: &mut LoopState,
    st: &mut SvcState,
    totals: AnalysisTotals,
    today: &str,
    now: u64,
    now_secs: i64,
)
    ensures
        *final(lp) == (LoopState {
            analysis_running: false,
            last_fingerprint: totals.fingerprint,
            last_analysis_at: Some(now),
            ..*old(lp)
        }),
        *final(st) == (SvcState {
            last_analysis: totals.analysis,
            last_analysis_unix: now_secs,
            error: cleared_error(*old(st)),
            advisor_spend_date: final(st).advisor_spend_date,
            advisor_spent_today: final(st).advisor_spent_today,
            advisor_escalations_today: final(st).advisor_escalations_today,
            advisor: Some(advisor_after(old(st).advisor, totals.advisor)),
            ..*old(st)
        }),
        final(st).advisor_spend_date@ == today@,
        if old(st).advisor_spend_date@ == today@ {
            &&& final(st).advisor_spent_today == totals.spent_today
            &&& final(st).advisor_escalations_today == totals.escalations_today
        } else {
            &&& final(st).advisor_spent_today == totals.escalation_cost
            &&& final(st).advisor_escalations_today == (if totals.advisor.escalated {
                1u32
            } else {
                0u32
            })
        },
        totals.escalations_today == old(st).advisor_escalations_today + second_pass(
            totals.advisor.escalated,
        ) ==> day_count(*final(st)) == count_ended(
            day_count(*old(st)),
            today@,
            totals.advisor.escalated,
        ),
{
    lp.analysis_running = false;
    lp.last_fingerprint = totals.fingerprint;
    lp.last_analysis_at = Some(now);
    st.last_analysis = totals.analysis;
    st.last_analysis_unix = now_secs;
    if !st.paused {
        st.error = None;
    }
    if same(st.advisor_spend_date.as_str(), today) {
        st.advisor_spent_today = totals.spent_today;
        st.advisor_escalations_today = totals.escalations_today;
    } else {
        st.advisor_spend_date = today.to_owned();
        st.advisor_spent_today = totals.escalation_cost;
        st.advisor_escalations_today = if totals.advisor.escalated {
            1
        } else {
            0
        };
    }
    let new = totals.advisor;
    let mut before: Option<AdvisorStatus> = None;
    std::mem::swap(&mut before, &mut st.advisor);
    st.advisor = Some(
        match before {
            Some(a) => AdvisorStatus {
                enabled: a.enabled,
                escalated: new.escalated,
                escalation_model: new.escalation_model,
                reason: new.reason,
                spent_today_usd: new.spent_today_usd,
                settings: a.settings,
            },
            None => new,
        },
    );
}

/// What is said of an analysis that never finished: it panicked, or it took longer than the
/// minutes it may.
pub fn unfinished_analysis(timed_out: bool, limit_mins: u64) -> (r: String)
    ensures
        r@ == (if timed_out {
            "analysis exceeded "@ + decimal(limit_mins as nat) + "m and was stopped"@
        } else {
            "analysis task panicked"@
        }),
{
    if timed_out {
        let minutes = decimal_text(limit_mins);
        let mut text = cat("analysis exceeded ", minutes.as_str());
        text.append("m and was stopped");
        text
    } else {
        "analysis task panicked".to_owned()
    }
}

// ── What the loop promises ────────────────────────────────────────────────────

proof fn lemma_put_total(s: Seq<Seq<char>>, x: Seq<char>)
    ensures
        total_len(put_in_order(s, x)) == total_len(s) + x.len(),
        put_in_order(s, x).len() == s.len() + 1,
        put_in_order(s, x).contains(x),
        forall|y: Seq<char>| s.contains(y) ==> #[trigger] put_in_order(s, x).contains(y),
    decreases s.len(),
{
    let r = put_in_order(s, x);
    if s.len() == 0 {
        assert(r.drop_last() =~= Seq::<Seq<char>>::empty());
        assert(total_len(Seq::<Seq<char>>::empty()) == 0);
        assert(r[0] == x);
    } else if text_le(s.last(), x) {
        assert(r.drop_last() =~= s);
        assert(r[s.len() as int] == x);
        assert forall|y: Seq<char>| s.contains(y) implies #[trigger] r.contains(y) by {
            let i = choose|i: int| 0 <= i < s.len() && s[i] == y;
            assert(r[i] == y);
        }
    } else {
        let rest = s.drop_last();
        lemma_put_total(rest, x);
        let p = put_in_order(rest, x);
        assert(r.drop_last() =~= p);
        let k = choose|k: int| 0 <= k < p.len() && p[k] == x;
        assert(r[k] == x);
        assert forall|y: Seq<char>| s.contains(y) implies #[trigger] r.contains(y) by {
            let i = choose|i: int| 0 <= i < s.len() && s[i] == y;
            if i < rest.len() {
                assert(rest[i] == y);
                assert(rest.contains(y));
                assert(p.contains(y));
                let j = choose|j: int| 0 <= j < p.len() && p[j] == y;
                assert(r[j] == y);
            } else {
                assert(r[r.len() - 1] == y);
            }
        }
    }
}

pub(crate) proof fn lemma_ordered_total(s: Seq<Seq<char>>)
    ensures
        total_len(ordered(s)) == total_len(s),
        ordered(s).len() == s.len(),
        forall|y: Seq<char>| s.contains(y) ==> #[trigger] ordered(s).contains(y),
    decreases s.len(),
{
    if s.len() > 0 {
        let rest = s.drop_last();
        lemma_ordered_total(rest);
        lemma_put_total(ordered(rest), s.last());
        assert forall|y: Seq<char>| s.contains(y) implies #[trigger] ordered(s).contains(y) by {
            let i = choose|i: int| 0 <= i < s.len() && s[i] == y;
            if i < rest.len() {
                assert(rest[i] == y);
                assert(rest.contains(y));
                assert(ordered(rest).contains(y));
            }
        }
    }
}

pub(crate) proof fn lemma_join_len(parts: Seq<Seq<char>>, sep: Seq<char>)
    requires
        parts.len() > 0,
        sep.len() == 1,
    ensures
        join(parts, sep).len() == total_len(parts) + parts.len() - 1,
    decreases parts.len(),
{
    if parts.len() == 1 {
        assert(parts.drop_last() =~= Seq::<Seq<char>>::empty());
        assert(total_len(Seq::<Seq<char>>::empty()) == 0);
    } else {
        lemma_join_len(parts.drop_last(), sep);
    }
}

proof fn lemma_join_holds(parts: Seq<Seq<char>>, sep: Seq<char>, i: int)
    requires
        0 <= i < parts.len(),
    ensures
        contains(join(parts, sep), parts[i]),
    decreases parts.len(),
{
    let nothing = Seq::<char>::empty();
    if parts.len() == 1 {
        what_stands_in_a_text_is_found(nothing, parts[0], nothing);
        assert(nothing + parts[0] + nothing =~= parts[0]);
    } else if i == parts.len() - 1 {
        let before = join(parts.drop_last(), sep) + sep;
        what_stands_in_a_text_is_found(before, parts[i], nothing);
        assert(before + parts[i] + nothing =~= join(parts, sep));
    } else {
        lemma_join_holds(parts.drop_last(), sep, i);
        let b = join(parts.drop_last(), sep);
        let at = choose|at: int| occurs_at(b, parts[i], at);
        let all = join(parts, sep);
        assert(all.subrange(at, at + parts[i].len()) =~= b.subrange(at, at + parts[i].len()));
        assert(occurs_at(all, parts[i], at));
    }
}

proof fn lemma_part_shows(snap: SignalSnapshot, part: Seq<char>)
    requires
        actionable_parts(snap).contains(part),
    ensures
        fingerprint_of(snap) is Some,
        contains(fingerprint_of(snap)->0, part),
{
    let parts = actionable_parts(snap);
    lemma_ordered_total(parts);
    assert(ordered(parts).contains(part));
    let i = choose|i: int| 0 <= i < ordered(parts).len() && ordered(parts)[i] == part;
    lemma_join_holds(ordered(parts), "\n"@, i);
}

proof fn lemma_change_part_listed(changes: Seq<FileChange>, i: int, part: Seq<char>)
    requires
        0 <= i < changes.len(),
        change_part(changes[i]).contains(part),
    ensures
        change_parts(changes).contains(part),
    decreases changes.len(),
{
    let before = change_parts(changes.drop_last());
    let last = change_part(changes.last());
    if i == changes.len() - 1 {
        let k = choose|k: int| 0 <= k < last.len() && last[k] == part;
        assert((before + last)[before.len() + k] == part);
    } else {
        lemma_change_part_listed(changes.drop_last(), i, part);
        let k = choose|k: int| 0 <= k < before.len() && before[k] == part;
        assert((before + last)[k] == part);
    }
}

proof fn lemma_entry_part_listed(entries: Seq<EventLogEntry>, i: int, part: Seq<char>)
    requires
        0 <= i < entries.len(),
        entry_part(entries[i]).contains(part),
    ensures
        entry_parts(entries).contains(part),
    decreases entries.len(),
{
    let before = entry_parts(entries.drop_last());
    let last = entry_part(entries.last());
    if i == entries.len() - 1 {
        let k = choose|k: int| 0 <= k < last.len() && last[k] == part;
        assert((before + last)[before.len() + k] == part);
    } else {
        lemma_entry_part_listed(entries.drop_last(), i, part);
        let k = choose|k: int| 0 <= k < before.len() && before[k] == part;
        assert((before + last)[k] == part);
    }
}

/// A reading above ninety is worth an analysis, and shows in the fingerprint by its name.
pub proof fn high_load_is_worth_an_analysis(snap: SignalSnapshot)
    ensures
        ({
            let limit = Metric { bits: 0x42b4_0000 };
            let sys = snap.system_state;
            &&& less(limit, sys.cpu_usage_percent) ==> fingerprint_of(snap) is Some && contains(
                fingerprint_of(snap)->0,
                "CPU>90"@,
            )
            &&& less(limit, sys.memory_usage_percent) ==> fingerprint_of(snap) is Some && contains(
                fingerprint_of(snap)->0,
                "MEM>90"@,
            )
            &&& less(limit, sys.disk_usage_percent) ==> fingerprint_of(snap) is Some && contains(
                fingerprint_of(snap)->0,
                "DISK>90"@,
            )
        }),
{
    let sys = snap.system_state;
    let c = above_ninety(sys.cpu_usage_percent, "CPU>90"@);
    let m = above_ninety(sys.memory_usage_percent, "MEM>90"@);
    let d = above_ninety(sys.disk_usage_percent, "DISK>90"@);
    let parts = actionable_parts(snap);
    let n = change_parts(snap.file_changes@).len() + entry_parts(snap.event_log@).len()
        + sys.faults().len();
    if c.len() > 0 {
        assert(parts[n as int] == "CPU>90"@);
        lemma_part_shows(snap, "CPU>90"@);
    }
    if m.len() > 0 {
        assert(parts[(n + c.len()) as int] == "MEM>90"@);
        lemma_part_shows(snap, "MEM>90"@);
    }
    if d.len() > 0 {
        assert(parts[(n + c.len() + m.len()) as int] == "DISK>90"@);
        lemma_part_shows(snap, "DISK>90"@);
    }
}

proof fn lemma_total_append(a: Seq<Seq<char>>, b: Seq<Seq<char>>)
    ensures
        total_len(a + b) == total_len(a) + total_len(b),
    decreases b.len(),
{
    if b.len() == 0 {
        assert(a + b =~= a);
    } else {
        lemma_total_append(a, b.drop_last());
        assert((a + b).drop_last() =~= a + b.drop_last());
    }
}

proof fn lemma_longer_parts_differ(a: SignalSnapshot, b: SignalSnapshot)
    requires
        actionable_parts(a).len() < actionable_parts(b).len(),
        total_len(actionable_parts(a)) <= total_len(actionable_parts(b)),
    ensures
        fingerprint_of(a) != fingerprint_of(b),
{
    let x = actionable_parts(a);
    let y = actionable_parts(b);
    reveal_strlit("\n");
    assert("\n"@.len() == 1);
    lemma_ordered_total(x);
    lemma_ordered_total(y);
    lemma_join_len(ordered(y), "\n"@);
    if x.len() > 0 {
        lemma_join_len(ordered(x), "\n"@);
    }
}

proof fn lemma_total_load(snap: SignalSnapshot)
    ensures
        ({
            let sys = snap.system_state;
            let base = change_parts(snap.file_changes@) + entry_parts(snap.event_log@)
                + sys.faults();
            let c = above_ninety(sys.cpu_usage_percent, "CPU>90"@);
            let m = above_ninety(sys.memory_usage_percent, "MEM>90"@);
            let d = above_ninety(sys.disk_usage_percent, "DISK>90"@);
            &&& total_len(actionable_parts(snap)) == total_len(base) + total_len(c) + total_len(m)
                + total_len(d)
            &&& actionable_parts(snap).len() == base.len() + c.len() + m.len() + d.len()
        }),
{
    let sys = snap.system_state;
    let base = change_parts(snap.file_changes@) + entry_parts(snap.event_log@) + sys.faults();
    let c = above_ninety(sys.cpu_usage_percent, "CPU>90"@);
    let m = above_ninety(sys.memory_usage_percent, "MEM>90"@);
    let d = above_ninety(sys.disk_usage_percent, "DISK>90"@);
    lemma_total_append(c, m);
    lemma_total_append(c + m, d);
    lemma_total_append(base, c + m + d);
}

/// Two snapshots that agree on all but whether one of the readings is above ninety have
/// different fingerprints.
pub proof fn load_that_rises_is_another_fingerprint(
    calm: SignalSnapshot,
    loaded: SignalSnapshot,
    high: Metric,
)
    requires
        less(Metric { bits: 0x42b4_0000 }, high),
        loaded.file_changes@ == calm.file_changes@,
        loaded.event_log@ == calm.event_log@,
        ({
            let sys = calm.system_state;
            let limit = Metric { bits: 0x42b4_0000 };
            ||| !less(limit, sys.cpu_usage_percent) && loaded.system_state == (SystemState {
                cpu_usage_percent: high,
                ..sys
            })
            ||| !less(limit, sys.memory_usage_percent) && loaded.system_state == (SystemState {
                memory_usage_percent: high,
                ..sys
            })
            ||| !less(limit, sys.disk_usage_percent) && loaded.system_state == (SystemState {
                disk_usage_percent: high,
                ..sys
            })
        }),
    ensures
        fingerprint_of(calm) != fingerprint_of(loaded),
{
    lemma_total_load(calm);
    lemma_total_load(loaded);
    assert(total_len(Seq::<Seq<char>>::empty()) == 0);
    lemma_longer_parts_differ(calm, loaded);
}

/// Each log event, entry and fault that is worth an analysis makes a fingerprint, and shows in
/// it: a log event by its path, severity and number of excerpts, an entry by its level, source
/// and number, a fault by its name.
pub proof fn every_signal_shows_in_the_fingerprint(snap: SignalSnapshot, i: int)
    ensures
        0 <= i < snap.file_changes@.len() ==> (snap.file_changes@[i].log_event matches Some(e)
            ==> e.severity@ != "INFO"@ || e.error_snippets@.len() > 0 ==> fingerprint_of(snap)
            is Some && contains(
            fingerprint_of(snap)->0,
            "F|"@ + e.log_path@ + "|"@ + e.severity@ + "|"@ + decimal(e.error_snippets@.len()),
        )),
        0 <= i < snap.event_log@.len() && (snap.event_log@[i].level@ == "Error"@
            || snap.event_log@[i].level@ == "Warning"@) ==> fingerprint_of(snap) is Some
            && contains(
            fingerprint_of(snap)->0,
            "E|"@ + snap.event_log@[i].level@ + "|"@ + snap.event_log@[i].source@ + "|"@ + decimal(
                snap.event_log@[i].event_id as nat,
            ),
        ),
        0 <= i < snap.system_state.faults().len() ==> fingerprint_of(snap) is Some && contains(
            fingerprint_of(snap)->0,
            snap.system_state.faults()[i],
        ),
{
    let c = change_parts(snap.file_changes@);
    let e = entry_parts(snap.event_log@);
    let f = snap.system_state.faults();
    let parts = actionable_parts(snap);
    if 0 <= i < snap.file_changes@.len() {
        if let Some(event) = snap.file_changes@[i].log_event {
            if event.severity@ != "INFO"@ || event.error_snippets@.len() > 0 {
                let part = "F|"@ + event.log_path@ + "|"@ + event.severity@ + "|"@ + decimal(
                    event.error_snippets@.len(),
                );
                assert(change_part(snap.file_changes@[i])[0] == part);
                lemma_change_part_listed(snap.file_changes@, i, part);
                let k = choose|k: int| 0 <= k < c.len() && c[k] == part;
                assert(parts[k] == part);
                lemma_part_shows(snap, part);
            }
        }
    }
    if 0 <= i < snap.event_log@.len() && (snap.event_log@[i].level@ == "Error"@
        || snap.event_log@[i].level@ == "Warning"@) {
        let entry = snap.event_log@[i];
        let part = "E|"@ + entry.level@ + "|"@ + entry.source@ + "|"@ + decimal(
            entry.event_id as nat,
        );
        assert(entry_part(entry)[0] == part);
        lemma_entry_part_listed(snap.event_log@, i, part);
        let k = choose|k: int| 0 <= k < e.len() && e[k] == part;
        assert(parts[c.len() + k] == part);
        lemma_part_shows(snap, part);
    }
    if 0 <= i < f.len() {
        assert(parts[c.len() + e.len() + i] == f[i]);
        lemma_part_shows(snap, f[i]);
    }
}

/// Where no log event, entry or fault is worth an analysis and no reading is above ninety, there
/// is no fingerprint.
pub proof fn quiet_machine_has_no_fingerprint(snap: SignalSnapshot)
    requires
        forall|i: int|
            0 <= i < snap.file_changes@.len() ==> ((
            #[trigger] snap.file_changes@[i]).log_event matches Some(e) ==> e.severity@ == "INFO"@
                && e.error_snippets@.len() == 0),
        forall|i: int|
            0 <= i < snap.event_log@.len() ==> (#[trigger] snap.event_log@[i]).level@ != "Error"@
                && snap.event_log@[i].level@ != "Warning"@,
        snap.system_state.faults().len() == 0,
        !less(Metric { bits: 0x42b4_0000 }, snap.system_state.cpu_usage_percent),
        !less(Metric { bits: 0x42b4_0000 }, snap.system_state.memory_usage_percent),
        !less(Metric { bits: 0x42b4_0000 }, snap.system_state.disk_usage_percent),
    ensures
        fingerprint_of(snap) is None,
{
    lemma_no_change_parts(snap.file_changes@);
    lemma_no_entry_parts(snap.event_log@);
}

proof fn lemma_no_change_parts(changes: Seq<FileChange>)
    requires
        forall|i: int|
            0 <= i < changes.len() ==> ((#[trigger] changes[i]).log_event matches Some(e)
                ==> e.severity@ == "INFO"@ && e.error_snippets@.len() == 0),
    ensures
        change_parts(changes).len() == 0,
    decreases changes.len(),
{
    if changes.len() > 0 {
        let before = changes.drop_last();
        assert forall|i: int| 0 <= i < before.len() implies ((
        #[trigger] before[i]).log_event matches Some(e) ==> e.severity@ == "INFO"@
            && e.error_snippets@.len() == 0) by {
            assert(changes[i] == before[i]);
        }
        lemma_no_change_parts(before);
        assert(changes[changes.len() - 1] == changes.last());
    }
}

proof fn lemma_no_entry_parts(entries: Seq<EventLogEntry>)
    requires
        forall|i: int|
            0 <= i < entries.len() ==> (#[trigger] entries[i]).level@ != "Error"@
                && entries[i].level@ != "Warning"@,
    ensures
        entry_parts(entries).len() == 0,
    decreases entries.len(),
{
    if entries.len() > 0 {
        let before = entries.drop_last();
        assert forall|i: int| 0 <= i < before.len() implies (#[trigger] before[i]).level@
            != "Error"@ && before[i].level@ != "Warning"@ by {
            assert(entries[i] == before[i]);
        }
        lemma_no_entry_parts(before);
        assert(entries[entries.len() - 1] == entries.last());
    }
}

/// The model is called where the signals worth it are others than were last analysed, where it
/// was not called for six hours, or where it never was; and otherwise not.
pub proof fn model_is_called_on_change_and_on_the_heartbeat(
    lp: LoopState,
    fingerprint: Option<Seq<char>>,
    now: u64,
)
    ensures
        worth_analysing(lp, fingerprint, now) <==> {
            ||| fingerprint is Some && (lp.last_fingerprint is None || fingerprint->0 != (
            lp.last_fingerprint->0)@)
            ||| lp.last_analysis_at is None
            ||| now - lp.last_analysis_at->0 >= 21_600_000_000_000
        },
{
}

/// A reaction comes ten seconds after its signal or a minute after the last pass, whichever is
/// later, and no later than that.
pub proof fn reaction_comes_as_soon_as_it_may(now: u64, last_cycle_at: u64)
    requires
        now + 10_000_000_000 <= u64::MAX,
        last_cycle_at + 60_000_000_000 <= u64::MAX,
    ensures
        reaction_due(now, last_cycle_at) == now + 10_000_000_000 || reaction_due(
            now,
            last_cycle_at,
        ) == last_cycle_at + 60_000_000_000,
        reaction_due(now, last_cycle_at) >= now + 10_000_000_000,
        reaction_due(now, last_cycle_at) >= last_cycle_at + 60_000_000_000,
{
}

/// A pass counts as one more, at its time; it covers the reaction that was due, and nothing of
/// what was analysed is forgotten.
pub proof fn pass_covers_the_reaction(before: LoopState, after: LoopState, now: u64)
    requires
        pass_begun(before, after, now),
    ensures
        after.last_cycle_at == now,
        before.cycle_count < u64::MAX ==> after.cycle_count == before.cycle_count + 1,
        !before.analysis_running ==> after.react_at is None,
        after.last_fingerprint == before.last_fingerprint,
        after.last_analysis_at == before.last_analysis_at,
        after.was_gaming == before.was_gaming,
{
}

/// A digest is made once a week, or where none was ever made, unless one is being made or a
/// game runs.
pub proof fn digest_is_made_once_a_week(st: SvcState, now: i64)
    ensures
        digest_is_due(st, now) <==> !st.digest_running && !st.gaming_manual && st.gaming_until
            <= now && (st.last_digest_at == 0 || now - st.last_digest_at >= 604_800),
{
}

/// How far a pass goes: not at all while the service is paused; to the collecting of signals
/// without a provider; to an analysis only where none is under way.
pub proof fn pass_goes_as_far_as_it_may(
    lp: LoopState,
    st: SvcState,
    has_provider: bool,
    now: i64,
)
    ensures
        pass_plan(lp, st, has_provider, now) is Nothing <==> st.paused,
        pass_plan(lp, st, has_provider, now) is CollectOnly <==> !st.paused && !has_provider,
        pass_plan(lp, st, has_provider, now) is Consider <==> !st.paused && has_provider
            && !lp.analysis_running,
        pass_plan(lp, st, has_provider, now) matches PassStep::Consider { digest } ==> digest
            == digest_is_due(st, now),
        pass_plan(lp, st, has_provider, now) matches PassStep::Settle { digest } ==> digest
            == digest_is_due(st, now) && lp.analysis_running,
{
}

/// A second pass is made exactly where the advisor is on and has a model or an effort to offer,
/// the day has not had its count, and the model asked for it or was not sure of anything that
/// it found.
pub proof fn second_pass_is_made_where_the_first_was_unsure(
    decision: ClaudeDecision,
    cfg: AdvisorConfig,
    escalations_today: u32,
)
    ensures
        escalation(decision, cfg, escalations_today) is Some <==> {
            &&& cfg.enabled
            &&& trim(cfg.escalation_model@).len() > 0 || trim(cfg.escalation_effort@).len() > 0
            &&& escalations_today < 24
            &&& {
                ||| decision.needs_deeper_analysis
                ||| {
                    &&& decision.problems@.len() > 0
                    &&& less(Metric { bits: 0 }, cfg.low_confidence_threshold)
                    &&& forall|i: int|
                        0 <= i < decision.problems@.len() ==> (less(
                            (#[trigger] decision.problems@[i]).confidence,
                            cfg.low_confidence_threshold,
                        ) || crate::metric::rank(decision.problems@[i].confidence.bits) is None)
                }
            }
        },
{
}

/// What the model is told of what was learned and of the trend is each of them, as far as
/// there is one.
pub proof fn context_holds_what_there_is(learned: Option<Seq<char>>, trend: Option<Seq<char>>)
    ensures
        learned is None ==> context_of(learned, trend) == trend,
        trend is None ==> context_of(learned, trend) == learned,
        learned is Some && trend is Some ==> context_of(learned, trend) is Some && (
        learned->0).is_prefix_of(context_of(learned, trend)->0) && contains(
            context_of(learned, trend)->0,
            trend->0,
        ),
{
    if learned is Some && trend is Some {
        let all = context_of(learned, trend)->0;
        let nothing = Seq::<char>::empty();
        assert(learned->0 =~= all.take((learned->0).len() as int));
        what_stands_in_a_text_is_found(learned->0 + "\n\n"@, trend->0, nothing);
        assert(learned->0 + "\n\n"@ + trend->0 + nothing =~= all);
    }
}

/// An analysis that begins on another day starts the day's counts anew and changes nothing
/// else; on the same day it changes nothing.
pub proof fn new_day_starts_anew(before: SvcState, after: SvcState, today: Seq<char>)
    requires
        analysis_begun(before, after, today),
    ensures
        after.advisor_spend_date@ == today,
        before.advisor_spend_date@ != today ==> after.advisor_escalations_today == 0
            && after.advisor_spent_today.bits == 0,
        before.advisor_spend_date@ == today ==> after.advisor_escalations_today
            == before.advisor_escalations_today && after.advisor_spent_today
            == before.advisor_spent_today,
        after.pending == before.pending && after.in_flight == before.in_flight,
{
}

// ── What the operations do ────────────────────────────────────────────────────

/// Each of the three loads that is high makes a fingerprint that says so, and a machine on which
/// nothing is wrong has none.
pub proof fn fingerprint_tells_every_high_load(snap: &SignalSnapshot, r: Option<String>)
    requires
        call_ensures(actionable_fingerprint, (snap,), r),
    ensures
        ({
            let limit = Metric { bits: 0x42b4_0000 };
            let sys = snap.system_state;
            &&& less(limit, sys.cpu_usage_percent) ==> r is Some && contains(r->0@, "CPU>90"@)
            &&& less(limit, sys.memory_usage_percent) ==> r is Some && contains(r->0@, "MEM>90"@)
            &&& less(limit, sys.disk_usage_percent) ==> r is Some && contains(r->0@, "DISK>90"@)
        }),
{
    high_load_is_worth_an_analysis(*snap);
}

/// A load that rises above the limit while all else stays makes another fingerprint.
pub proof fn rising_load_makes_another_fingerprint(
    calm: &SignalSnapshot,
    loaded: &SignalSnapshot,
    high: Metric,
    a: Option<String>,
    b: Option<String>,
)
    requires
        call_ensures(actionable_fingerprint, (calm,), a),
        call_ensures(actionable_fingerprint, (loaded,), b),
        less(Metric { bits: 0x42b4_0000 }, high),
        loaded.file_changes@ == calm.file_changes@,
        loaded.event_log@ == calm.event_log@,
        ({
            let sys = calm.system_state;
            let limit = Metric { bits: 0x42b4_0000 };
            ||| !less(limit, sys.cpu_usage_percent) && loaded.system_state == (SystemState {
                cpu_usage_percent: high,
                ..sys
            })
            ||| !less(limit, sys.memory_usage_percent) && loaded.system_state == (SystemState {
                memory_usage_percent: high,
                ..sys
            })
            ||| !less(limit, sys.disk_usage_percent) && loaded.system_state == (SystemState {
                disk_usage_percent: high,
                ..sys
            })
        }),
    ensures
        opt_view(a) != opt_view(b),
{
    load_that_rises_is_another_fingerprint(*calm, *loaded, high);
}

/// A signal is reacted to once: a reaction that is due already stays at its time, and a new one
/// comes no sooner than ten seconds from now.
pub proof fn signal_is_reacted_to_once(lp: &mut LoopState, now: u64)
    requires
        call_ensures(on_trigger, (lp, now), ()),
    ensures
        final(lp).react_at is Some,
        old(lp).react_at is Some ==> final(lp).react_at == old(lp).react_at,
        old(lp).react_at is None && now <= u64::MAX - 70_000_000_000 ==> final(lp).react_at->0
            >= now + 10_000_000_000,
        final(lp).analysis_running == old(lp).analysis_running && final(lp).last_fingerprint == old(lp).last_fingerprint,
{
}

/// No reaction is due while an analysis runs.
pub proof fn reactions_wait_for_the_analysis(lp: &LoopState, r: Option<u64>)
    requires
        call_ensures(reaction_at, (lp,), r),
    ensures
        lp.analysis_running ==> r is None,
        !lp.analysis_running ==> r == lp.react_at,
{
}

/// The end of a game makes everything look new; as long as one runs, or none did, nothing is
/// forgotten.
pub proof fn end_of_a_game_is_noticed(lp: &mut LoopState, st: &SvcState, now: i64, r: bool)
    requires
        call_ensures(reconcile_gaming, (lp, st, now), r),
    ensures
        r <==> old(lp).was_gaming && !gaming_at(*st, now),
        final(lp).was_gaming == gaming_at(*st, now),
        r ==> final(lp).last_fingerprint is None,
        !r ==> final(lp).last_fingerprint == old(lp).last_fingerprint,
        final(lp).react_at == old(lp).react_at,
{
}

/// A digest that says something is shown; one that says nothing leaves the last one. Either way
/// the week starts anew.
pub proof fn empty_digest_is_not_shown(st: &mut SvcState, view: DigestView, r: bool)
    requires
        call_ensures(digest_done, (st, view), r),
    ensures
        view.text@.len() > 0 ==> final(st).digest == Some(view),
        view.text@.len() == 0 ==> final(st).digest == old(st).digest,
        !final(st).digest_running && final(st).last_digest_at == view.generated_at,
{
}

/// An analysis that is not worth it changes nothing but the status, except that signals that are
/// gone are forgotten.
pub proof fn skipped_analysis_forgets_only_what_is_gone(
    lp: &mut LoopState,
    st: &mut SvcState,
    fingerprint: &Option<String>,
    now: u64,
    now_secs: i64,
    r: bool,
)
    requires
        call_ensures(gate_analysis, (lp, st, fingerprint, now, now_secs), r),
    ensures
        r ==> *final(lp) == *old(lp) && *final(st) == *old(st),
        !r && *fingerprint is None ==> final(lp).last_fingerprint is None,
        old(lp).last_analysis_at is None ==> r,
        *fingerprint is Some && old(lp).last_fingerprint is None ==> r,
        !r && *fingerprint is Some ==> final(lp).last_fingerprint == old(lp).last_fingerprint,
        final(lp).analysis_running == old(lp).analysis_running && final(lp).last_analysis_at == old(lp).last_analysis_at,
{
}

/// A failed analysis ends, says why, and leaves what was last analysed as it was, so that it is
/// tried again.
pub proof fn failed_analysis_is_tried_again(lp: &mut LoopState, st: &mut SvcState, e: &str)
    requires
        call_ensures(analysis_failed, (lp, st, e), ()),
    ensures
        !final(lp).analysis_running && final(lp).last_fingerprint == old(lp).last_fingerprint
            && final(lp).last_analysis_at == old(lp).last_analysis_at,
        opt_view(final(st).error) == Some("AI: "@ + e@),
        old(st).paused ==> final(st).status@ == "Paused"@,
        !old(st).paused ==> final(st).status@ == "Error"@,
        final(st).last_analysis == old(st).last_analysis,
{
}

/// A second pass decides where there was one, and the first where there was none; the second is
/// counted and paid for.
pub proof fn second_pass_decides(
    fingerprint: Option<String>,
    first: ClaudeDecision,
    deeper: Option<DeeperPass>,
    cfg: &AdvisorConfig,
    settings: AdvisorSettingsView,
    spent_before: Amount,
    escalations_before: u32,
    r: (ClaudeDecision, AnalysisTotals),
)
    requires
        call_ensures(
            conclude_analysis,
            (fingerprint, first, deeper, cfg, settings, spent_before, escalations_before),
            r,
        ),
    ensures
        deeper matches Some(d) ==> r.0 == d.decision && r.1.advisor.escalated && r.1.spent_today
            == d.spent_today && r.1.escalations_today == escalations_before + 1,
        deeper is None ==> r.0 == first && !r.1.advisor.escalated && r.1.spent_today == spent_before
            && r.1.escalations_today == escalations_before,
        r.1.fingerprint == fingerprint,
{
}

/// An analysis that succeeded is remembered with its fingerprint and its time, and what it cost is
/// counted for its day; on a new day the count starts anew.
pub proof fn succeeded_analysis_is_remembered(
    lp: &mut LoopState,
    st: &mut SvcState,
    totals: AnalysisTotals,
    today: &str,
    now: u64,
    now_secs: i64,
)
    requires
        call_ensures(analysis_succeeded, (lp, st, totals, today, now, now_secs), ()),
    ensures
        !final(lp).analysis_running && final(lp).last_fingerprint == totals.fingerprint && final(lp).last_analysis_at == Some(now),
        final(st).last_analysis == totals.analysis && final(st).last_analysis_unix == now_secs,
        final(st).advisor_spend_date@ == today@,
        old(st).advisor_spend_date@ == today@ ==> final(st).advisor_spent_today
            == totals.spent_today && final(st).advisor_escalations_today
            == totals.escalations_today,
        old(st).advisor_spend_date@ != today@ ==> final(st).advisor_spent_today
            == totals.escalation_cost && final(st).advisor_escalations_today == (
        if totals.advisor.escalated {
            1int
        } else {
            0int
        }),
        final(st).pending == old(st).pending && final(st).paused == old(st).paused,
{
}

/// Coming to rest clears an error unless the service is paused, and changes nothing but the status
/// else; a digest that is started runs.
pub proof fn rest_clears_an_error_unless_paused(before: SvcState, after: SvcState, now: i64)
    ensures
        at_rest(before, after, now) ==> {
            &&& before.paused ==> after.error == before.error
            &&& !before.paused ==> after.error is None
            &&& after.status@ == settled(before, now)
            &&& after.pending == before.pending && after.in_flight == before.in_flight
                && after.paused == before.paused && after.digest_running == before.digest_running
        },
        with_digest(before, true).digest_running,
        with_digest(before, false) == before,
        with_digest(before, true).digest == before.digest && with_digest(before, true).status
            == before.status,
{
}

/// A second pass counts for the day on which the analysis ends; a new day starts at zero.
pub proof fn second_passes_are_counted_by_the_day(day: Seq<char>, other: Seq<char>, n: int)
    requires
        day != other,
    ensures
        ({
            let c = DayCount { day, count: n };
            &&& count_begun(c, day) == c
            &&& count_begun(c, other) == (DayCount { day: other, count: 0 })
            &&& count_ended(c, day, true) == (DayCount { day, count: n + 1 })
            &&& count_ended(c, day, false) == c
            &&& count_ended(c, other, true) == (DayCount { day: other, count: 1 })
            &&& count_ended(c, other, false) == (DayCount { day: other, count: 0 })
        }),
{
}

/// What an analysis says of the advisor is shown; whether it is on and its settings stay as the
/// user set them meanwhile.
pub proof fn analysis_leaves_the_advisors_settings(before: AdvisorStatus, new: AdvisorStatus)
    ensures
        ({
            let a = advisor_after(Some(before), new);
            &&& a.enabled == before.enabled && a.settings == before.settings
            &&& a.escalated == new.escalated && a.escalation_model == new.escalation_model
                && a.reason == new.reason && a.spent_today_usd == new.spent_today_usd
        }),
        advisor_after(None, new) == new,
{
}

} // verus!
