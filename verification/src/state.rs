//! The state of the service, and what of it the user interface is told.

use crate::copied::Copied;
use crate::metric::{Amount, Metric};
use crate::models::{FixAction, SystemState};
use crate::proto::{
    AdvisorStatus, ApprovalInfo, AskEntry, AskStatus, DigestView, ExecutionSummary,
    LearnedFactView, MetricPoint, PendingApproval, ProblemSummary, ScanView, ServiceIdentity,
    StartupToggle, StatusPayload, UiSettings, UpdaterStatus, UsageSummary,
};
use crate::text::{
    ascii_lowercase, char_cap, copy_list, eq_ignore_ascii_case, head, is_listed, listed, opt_view,
    same, same_ignoring_ascii_case,
};
use vstd::prelude::*;
use vstd::string::*;

verus! {

/// Problems and executions that are kept to be shown.
pub const RECENT_CAP: usize = 20;

/// Characters of an execution's output that are shown.
pub const PREVIEW_CHARS: usize = 120;

/// Answered questions that are kept.
pub const ASK_CAP: usize = 10;

/// The state of the service.
pub struct SvcState {
    pub paused: bool,
    pub cpu: Metric,
    pub memory: Metric,
    pub disk: Metric,
    pub failed_services: Vec<String>,
    pub signals_at: i64,
    pub signal_errors: Vec<String>,
    pub last_analysis: String,
    /// When the last analysis finished, in seconds since 1970 (0 = none yet).
    pub last_analysis_unix: i64,
    pub recent_problems: Vec<ProblemSummary>,
    pub recent_executions: Vec<ExecutionSummary>,
    /// Actions awaiting the user's decision.
    pub pending: Vec<PendingApproval>,
    pub status: String,
    pub error: Option<String>,
    pub usage: Option<UsageSummary>,
    pub settings: Option<UiSettings>,
    pub updater: UpdaterStatus,
    /// An update check is under way.
    pub updater_running: bool,
    /// The identities of the actions that are queued or running, each once.
    pub in_flight: Vec<String>,
    pub learned_facts: Vec<LearnedFactView>,
    pub advisor: Option<AdvisorStatus>,
    pub advisor_spent_today: Amount,
    /// Escalations of the day, which are capped.
    pub advisor_escalations_today: u32,
    /// The day that the advisor's counts belong to.
    pub advisor_spend_date: String,
    pub digest: Option<DigestView>,
    /// When the last digest was made, in seconds since 1970 (0 = never).
    pub last_digest_at: i64,
    pub digest_running: bool,
    pub history: Vec<MetricPoint>,
    pub ask: Option<AskStatus>,
    /// The answered questions, newest first.
    pub ask_entries: Vec<AskEntry>,
    pub ask_running: bool,
    /// When the last answer finished, in seconds since 1970 (0 = never).
    pub last_ask_at: i64,
    pub disk_insights: Option<ScanView>,
    pub disk_scan_running: bool,
    /// The action behind each entry of the last disk scan, each entry once. A click names the
    /// entry alone.
    pub disk_targets: Vec<(String, FixAction)>,
    pub startup: Option<ScanView>,
    /// The user whose startup entries were scanned.
    pub startup_owner_sid: Option<String>,
    pub startup_scan_running: bool,
    /// What each entry of the last startup scan stands for, each entry once.
    pub startup_targets: Vec<(String, StartupToggle)>,
    /// Until when a game is known to run, in seconds since 1970 (0 = none). The tray keeps
    /// renewing it, so that it lapses by itself if the tray goes away.
    pub gaming_until: i64,
    /// The user's own switch, which stays until it is switched back.
    pub gaming_manual: bool,
}

/// Whether no text is listed twice.
pub open spec fn no_repeats(s: Seq<String>) -> bool {
    forall|i: int, j: int| 0 <= i < j < s.len() ==> (#[trigger] s[i])@ != (#[trigger] s[j])@
}

/// Whether no two pairs have the same name.
pub open spec fn unique_ids<A>(pairs: Seq<(String, A)>) -> bool {
    forall|i: int, j: int|
        0 <= i < j < pairs.len() ==> (#[trigger] pairs[i]).0@ != (#[trigger] pairs[j]).0@
}

impl SvcState {
    /// No action is in flight twice, no entry of a scan stands for two things, and what is
    /// kept to be shown stays within its caps.
    pub open spec fn wf(self) -> bool {
        &&& no_repeats(self.in_flight@)
        &&& unique_ids(self.disk_targets@)
        &&& unique_ids(self.startup_targets@)
        &&& self.recent_problems@.len() <= RECENT_CAP
        &&& self.recent_executions@.len() <= RECENT_CAP
        &&& self.ask_entries@.len() <= ASK_CAP
    }

    /// Whether this is the state that the service starts with.
    pub open spec fn is_initial(self) -> bool {
        let zero = Metric { bits: 0 };
        &&& !self.paused
        &&& self.cpu == zero
        &&& self.memory == zero
        &&& self.disk == zero
        &&& self.failed_services@.len() == 0
        &&& self.signals_at == 0
        &&& self.signal_errors@.len() == 0
        &&& self.last_analysis@.len() == 0
        &&& self.last_analysis_unix == 0
        &&& self.recent_problems@.len() == 0
        &&& self.recent_executions@.len() == 0
        &&& self.pending@.len() == 0
        &&& self.status@ == "Initializing"@
        &&& self.error is None
        &&& self.usage is None
        &&& self.settings is None
        &&& self.updater.is_blank()
        &&& !self.updater_running
        &&& self.in_flight@.len() == 0
        &&& self.learned_facts@.len() == 0
        &&& self.advisor is None
        &&& self.advisor_spent_today == (Amount { bits: 0 })
        &&& self.advisor_escalations_today == 0
        &&& self.advisor_spend_date@.len() == 0
        &&& self.digest is None
        &&& self.last_digest_at == 0
        &&& !self.digest_running
        &&& self.history@.len() == 0
        &&& self.ask is None
        &&& self.ask_entries@.len() == 0
        &&& !self.ask_running
        &&& self.last_ask_at == 0
        &&& self.disk_insights is None
        &&& !self.disk_scan_running
        &&& self.disk_targets@.len() == 0
        &&& self.startup is None
        &&& self.startup_owner_sid is None
        &&& !self.startup_scan_running
        &&& self.startup_targets@.len() == 0
        &&& self.gaming_until == 0
        &&& !self.gaming_manual
    }
}

impl Default for SvcState {
    /// The state that the service starts with.
    fn default() -> (r: SvcState)
        ensures
            r.is_initial(),
            r.wf(),
    {
        let zero = Metric { bits: 0 };
        SvcState {
            paused: false,
            cpu: zero,
            memory: zero,
            disk: zero,
            failed_services: Vec::new(),
            signals_at: 0,
            signal_errors: Vec::new(),
            last_analysis: String::new(),
            last_analysis_unix: 0,
            recent_problems: Vec::new(),
            recent_executions: Vec::new(),
            pending: Vec::new(),
            status: "Initializing".to_owned(),
            error: None,
            usage: None,
            settings: None,
            updater: UpdaterStatus::default(),
            updater_running: false,
            in_flight: Vec::new(),
            learned_facts: Vec::new(),
            advisor: None,
            advisor_spent_today: Amount { bits: 0 },
            advisor_escalations_today: 0,
            advisor_spend_date: String::new(),
            digest: None,
            last_digest_at: 0,
            digest_running: false,
            history: Vec::new(),
            ask: None,
            ask_entries: Vec::new(),
            ask_running: false,
            last_ask_at: 0,
            disk_insights: None,
            disk_scan_running: false,
            disk_targets: Vec::new(),
            startup: None,
            startup_owner_sid: None,
            startup_scan_running: false,
            startup_targets: Vec::new(),
            gaming_until: 0,
            gaming_manual: false,
        }
    }
}

// ── Game mode ─────────────────────────────────────────────────────────────────

/// Whether a game is taken to run: by the user's switch, or while the tray's lease lasts.
pub open spec fn gaming_at(st: SvcState, now: i64) -> bool {
    st.gaming_manual || st.gaming_until > now
}

/// Whether a game is taken to run.
pub fn is_gaming_at(st: &SvcState, now: i64) -> (r: bool)
    ensures
        r == gaming_at(*st, now),
{
    st.gaming_manual || st.gaming_until > now
}

/// A sum that stays within the numbers.
pub open spec fn capped_sum(a: i64, b: i64) -> i64 {
    if a + b > i64::MAX {
        i64::MAX
    } else if a + b < i64::MIN {
        i64::MIN
    } else {
        (a + b) as i64
    }
}

/// A difference that stays within the numbers.
pub open spec fn capped_difference(a: i64, b: i64) -> i64 {
    if a - b > i64::MAX {
        i64::MAX
    } else if a - b < i64::MIN {
        i64::MIN
    } else {
        (a - b) as i64
    }
}

/// The sum of two numbers, as far as it goes.
pub fn add_capped(a: i64, b: i64) -> (r: i64)
    ensures
        r == capped_sum(a, b),
{
    let sum: i128 = a as i128 + b as i128;
    if sum > i64::MAX as i128 {
        i64::MAX
    } else if sum < i64::MIN as i128 {
        i64::MIN
    } else {
        sum as i64
    }
}

/// The difference of two numbers, as far as it goes.
pub fn sub_capped(a: i64, b: i64) -> (r: i64)
    ensures
        r == capped_difference(a, b),
{
    let diff: i128 = a as i128 - b as i128;
    if diff > i64::MAX as i128 {
        i64::MAX
    } else if diff < i64::MIN as i128 {
        i64::MIN
    } else {
        diff as i64
    }
}

/// The lease after a message about a game: the user's switching off ends it too, so that
/// the click takes effect at once.
pub open spec fn lease_after(st: SvcState, on: bool, manual: bool, now: i64, lease: i64) -> i64 {
    if manual {
        if on {
            st.gaming_until
        } else {
            0
        }
    } else if on {
        capped_sum(now, lease)
    } else {
        0
    }
}

/// Take a message about a game: from the user it is a switch, from the tray a lease.
pub fn apply_set_gaming(st: &mut SvcState, on: bool, manual: bool, now: i64, lease_secs: i64)
    ensures
        *final(st) == (SvcState {
            gaming_manual: if manual {
                on
            } else {
                old(st).gaming_manual
            },
            gaming_until: lease_after(*old(st), on, manual, now, lease_secs),
            ..*old(st)
        }),
{
    if manual {
        st.gaming_manual = on;
        if !on {
            st.gaming_until = 0;
        }
    } else {
        st.gaming_until = if on {
            add_capped(now, lease_secs)
        } else {
            0
        };
    }
}

/// The user's switching off ends game mode at once, whatever the lease.
pub proof fn manual_off_ends_game_mode(before: SvcState, after: SvcState, now: i64, lease: i64)
    requires
        now >= 0,
        after.gaming_manual == false,
        after.gaming_until == lease_after(before, false, true, now, lease),
    ensures
        !gaming_at(after, now),
{
}

/// A lease that is not renewed lapses by itself.
pub proof fn lease_lapses(st: SvcState, now: i64, lease: i64, later: i64)
    requires
        !st.gaming_manual,
        st.gaming_until == capped_sum(now, lease),
        later >= capped_sum(now, lease),
    ensures
        !gaming_at(st, later),
{
}

/// Whether a scheduled update check is to start: the updater is on, nothing is paused, none
/// runs, no game runs, and the interval is over.
pub open spec fn update_is_due(
    enabled: bool,
    interval: i64,
    last_run: i64,
    st: SvcState,
    now: i64,
) -> bool {
    &&& enabled
    &&& !st.paused
    &&& !st.updater_running
    &&& !gaming_at(st, now)
    &&& (last_run == 0 || capped_difference(now, last_run) >= interval)
}

/// Whether a scheduled update check is to start. One that the user asks for does not ask
/// this.
pub fn updater_due(enabled: bool, interval_secs: i64, last_run: i64, st: &SvcState, now: i64) -> (r:
    bool)
    ensures
        r == update_is_due(enabled, interval_secs, last_run, *st, now),
{
    enabled && !st.paused && !st.updater_running && !is_gaming_at(st, now) && (last_run == 0
        || sub_capped(now, last_run) >= interval_secs)
}

/// No scheduled update check starts while a game runs or the service is paused.
pub proof fn updates_wait_for_games(
    enabled: bool,
    interval: i64,
    last_run: i64,
    st: SvcState,
    now: i64,
)
    requires
        gaming_at(st, now) || st.paused,
    ensures
        !update_is_due(enabled, interval, last_run, st, now),
{
}

// ── Status ────────────────────────────────────────────────────────────────────

/// The status to settle on: paused before all else, then a game, an outstanding approval,
/// an action that runs, and active.
pub open spec fn settled(st: SvcState, now: i64) -> Seq<char> {
    if st.paused {
        "Paused"@
    } else if gaming_at(st, now) {
        "Gaming"@
    } else if st.pending@.len() > 0 {
        "PendingApproval"@
    } else if st.in_flight@.len() > 0 {
        "Executing"@
    } else {
        "Active"@
    }
}

/// The status to settle on when nothing else is under way.
pub fn resting_status(st: &SvcState, now: i64) -> (r: String)
    ensures
        r@ == settled(*st, now),
{
    let status = if st.paused {
        "Paused"
    } else if is_gaming_at(st, now) {
        "Gaming"
    } else if st.pending.len() > 0 {
        "PendingApproval"
    } else if st.in_flight.len() > 0 {
        "Executing"
    } else {
        "Active"
    };
    status.to_owned()
}

/// Settle on the resting status.
pub fn settle(st: &mut SvcState, now: i64)
    ensures
        *final(st) == (SvcState { status: final(st).status, ..*old(st) }),
        final(st).status@ == settled(*old(st), now),
{
    let status = resting_status(st, now);
    st.status = status;
}

// ── What is in flight ─────────────────────────────────────────────────────────

/// The identities without one of them.
pub open spec fn without(s: Seq<String>, key: Seq<char>) -> Seq<String>
    decreases s.len(),
{
    if s.len() == 0 {
        Seq::empty()
    } else if s.last()@ == key {
        without(s.drop_last(), key)
    } else {
        without(s.drop_last(), key).push(s.last())
    }
}

proof fn lemma_without(s: Seq<String>, key: Seq<char>)
    ensures
        without(s, key).len() <= s.len(),
        !listed(without(s, key), key),
        forall|t: Seq<char>| t != key ==> (#[trigger] listed(without(s, key), t) <==> listed(s, t)),
    decreases s.len(),
{
    if s.len() > 0 {
        lemma_without(s.drop_last(), key);
        let before = without(s.drop_last(), key);
        let after = without(s, key);
        assert forall|t: Seq<char>| t != key implies (#[trigger] listed(after, t) <==> listed(
            s,
            t,
        )) by {
            assert(listed(before, t) <==> listed(s.drop_last(), t));
            if listed(s, t) {
                let i = choose|i: int| 0 <= i < s.len() && (#[trigger] s[i])@ == t;
                if i < s.len() - 1 {
                    assert(s.drop_last()[i]@ == t);
                    assert(listed(s.drop_last(), t));
                    let j = choose|j: int| 0 <= j < before.len() && (#[trigger] before[j])@ == t;
                    assert(after[j]@ == t);
                } else {
                    assert(after[after.len() - 1]@ == t);
                }
            }
            if listed(after, t) {
                let j = choose|j: int| 0 <= j < after.len() && (#[trigger] after[j])@ == t;
                if j < before.len() {
                    assert(before[j]@ == t);
                    assert(listed(s.drop_last(), t));
                    let i = choose|i: int|
                        0 <= i < s.drop_last().len() && (#[trigger] s.drop_last()[i])@ == t;
                    assert(s[i]@ == t);
                } else {
                    assert(s[s.len() - 1]@ == t);
                }
            }
        }
        if listed(after, key) {
            let j = choose|j: int| 0 <= j < after.len() && (#[trigger] after[j])@ == key;
            if j < before.len() {
                assert(before[j]@ == key);
                assert(listed(before, key));
            }
        }
    }
}

proof fn lemma_without_no_repeats(s: Seq<String>, key: Seq<char>)
    requires
        no_repeats(s),
    ensures
        no_repeats(without(s, key)),
    decreases s.len(),
{
    if s.len() > 0 {
        let rest = s.drop_last();
        assert forall|i: int, j: int| 0 <= i < j < rest.len() implies (#[trigger] rest[i])@ != (
        #[trigger] rest[j])@ by {
            assert(s[i]@ != s[j]@);
        }
        lemma_without_no_repeats(rest, key);
        lemma_without(rest, key);
        let before = without(rest, key);
        let after = without(s, key);
        if s.last()@ != key {
            assert forall|i: int, j: int| 0 <= i < j < after.len() implies (#[trigger] after[i])@ != (
            #[trigger] after[j])@ by {
                if j < before.len() {
                    assert(before[i]@ != before[j]@);
                } else {
                    let t = before[i]@;
                    assert(listed(before, t));
                    if t == s.last()@ {
                        assert(listed(rest, t));
                        let k = choose|k: int| 0 <= k < rest.len() && (#[trigger] rest[k])@ == t;
                        assert(s[k]@ != s[s.len() - 1]@);
                    }
                }
            }
        }
    }
}

/// Add an action to those in flight; whether it was not among them.
pub fn insert_in_flight(st: &mut SvcState, key: &str) -> (r: bool)
    requires
        old(st).wf(),
    ensures
        final(st).wf(),
        r == !listed(old(st).in_flight@, key@),
        *final(st) == (SvcState { in_flight: final(st).in_flight, ..*old(st) }),
        !r ==> final(st).in_flight == old(st).in_flight,
        r ==> final(st).in_flight@.len() == old(st).in_flight@.len() + 1
            && final(st).in_flight@.drop_last() == old(st).in_flight@
            && final(st).in_flight@.last()@ == key@,
{
    if is_listed(&st.in_flight, key) {
        return false;
    }
    let ghost before = st.in_flight@;
    st.in_flight.push(key.to_owned());
    assert(st.in_flight@.drop_last() =~= before);
    assert forall|i: int, j: int| 0 <= i < j < st.in_flight@.len() implies (
    #[trigger] st.in_flight@[i])@ != (#[trigger] st.in_flight@[j])@ by {
        if j == before.len() {
            assert(before[i]@ != key@);
        } else {
            assert(before[i]@ != before[j]@);
        }
    }
    true
}

/// Take an action out of those in flight.
pub fn remove_in_flight(st: &mut SvcState, key: &str)
    requires
        old(st).wf(),
    ensures
        final(st).wf(),
        *final(st) == (SvcState { in_flight: final(st).in_flight, ..*old(st) }),
        final(st).in_flight@ == without(old(st).in_flight@, key@),
        !listed(final(st).in_flight@, key@),
{
    let ghost all = st.in_flight@;
    let mut kept: Vec<String> = Vec::new();
    let mut i: usize = 0;
    assert(all.take(0) =~= Seq::<String>::empty());
    while i < st.in_flight.len()
        invariant
            i <= st.in_flight@.len(),
            all == st.in_flight@,
            *st == *old(st),
            kept@ == without(all.take(i as int), key@),
        decreases st.in_flight@.len() - i,
    {
        assert(all.take(i + 1).drop_last() =~= all.take(i as int));
        if !same(st.in_flight[i].as_str(), key) {
            kept.push(st.in_flight[i].clone());
        }
        i += 1;
    }
    assert(all.take(all.len() as int) =~= all);
    proof {
        lemma_without(all, key@);
        lemma_without_no_repeats(all, key@);
    }
    st.in_flight = kept;
}

/// Whether an action with this identity awaits a decision.
pub open spec fn awaits(pending: Seq<PendingApproval>, key: Seq<char>) -> bool {
    exists|i: int| 0 <= i < pending.len() && (#[trigger] pending[i]).action.key() == key
}

/// Whether an action with this identity runs, is queued, or awaits a decision.
pub open spec fn occupied(st: SvcState, key: Seq<char>) -> bool {
    listed(st.in_flight@, key) || awaits(st.pending@, key)
}

/// Whether an action with this identity runs, is queued, or awaits a decision.
pub fn is_occupied(st: &SvcState, key: &str) -> (r: bool)
    ensures
        r == occupied(*st, key@),
{
    if is_listed(&st.in_flight, key) {
        return true;
    }
    let mut i: usize = 0;
    while i < st.pending.len()
        invariant
            i <= st.pending@.len(),
            forall|k: int| 0 <= k < i ==> (#[trigger] st.pending@[k]).action.key() != key@,
        decreases st.pending@.len() - i,
    {
        let other = st.pending[i].action.dedup_key();
        if same(other.as_str(), key) {
            return true;
        }
        i += 1;
    }
    false
}

// ── What is shown ─────────────────────────────────────────────────────────────

/// A sequence with one more item, for which the first makes room at the cap.
pub open spec fn pushed<A>(s: Seq<A>, x: A, cap: int) -> Seq<A> {
    if s.len() >= cap {
        s.skip(1).push(x)
    } else {
        s.push(x)
    }
}

/// Whether a summary is that of a problem.
pub open spec fn summarizes(
    p: ProblemSummary,
    diagnosis: Seq<char>,
    confidence: Metric,
    action: Seq<char>,
    blocked: bool,
    auto_executed: bool,
    reason: Option<Seq<char>>,
    at: i64,
) -> bool {
    &&& p.diagnosis@ == diagnosis
    &&& p.confidence == confidence
    &&& p.action@ == action
    &&& p.blocked == blocked
    &&& p.auto_executed == auto_executed
    &&& opt_view(p.reason) == reason
    &&& p.at == at
}

/// Whether the problems are those from before with one more, within the cap.
pub open spec fn problem_added(before: Seq<ProblemSummary>, after: Seq<ProblemSummary>) -> bool {
    after.len() > 0 && after == pushed(before, after.last(), RECENT_CAP as int)
}

/// Show a problem.
pub fn push_problem(
    st: &mut SvcState,
    diagnosis: &str,
    confidence: Metric,
    action: &str,
    blocked: bool,
    auto_executed: bool,
    reason: Option<String>,
    at: i64,
)
    requires
        old(st).wf(),
    ensures
        final(st).wf(),
        *final(st) == (SvcState { recent_problems: final(st).recent_problems, ..*old(st) }),
        problem_added(old(st).recent_problems@, final(st).recent_problems@),
        summarizes(
            final(st).recent_problems@.last(),
            diagnosis@,
            confidence,
            action@,
            blocked,
            auto_executed,
            opt_view(reason),
            at,
        ),
{
    let ghost before = st.recent_problems@;
    if st.recent_problems.len() >= RECENT_CAP {
        let _ = st.recent_problems.remove(0);
    }
    let item = ProblemSummary {
        diagnosis: diagnosis.to_owned(),
        confidence,
        action: action.to_owned(),
        blocked,
        auto_executed,
        reason,
        at,
    };
    st.recent_problems.push(item);
    assert(st.recent_problems@ =~= pushed(before, item, RECENT_CAP as int));
}

/// Whether a summary is that of an execution.
pub open spec fn recounts(
    e: ExecutionSummary,
    action: Seq<char>,
    success: bool,
    output: Seq<char>,
    undo_id: Option<i64>,
    at: i64,
) -> bool {
    &&& e.action@ == action
    &&& e.success == success
    &&& e.preview@ == head(output, PREVIEW_CHARS as int)
    &&& e.undo_id == undo_id
    &&& e.at == at
}

/// Show an execution.
pub fn push_execution(
    st: &mut SvcState,
    action: &str,
    success: bool,
    output: &str,
    undo_id: Option<i64>,
    at: i64,
)
    requires
        old(st).wf(),
    ensures
        final(st).wf(),
        *final(st) == (SvcState { recent_executions: final(st).recent_executions, ..*old(st) }),
        final(st).recent_executions@.len() > 0,
        final(st).recent_executions@ == pushed(
            old(st).recent_executions@,
            final(st).recent_executions@.last(),
            RECENT_CAP as int,
        ),
        recounts(final(st).recent_executions@.last(), action@, success, output@, undo_id, at),
{
    let ghost before = st.recent_executions@;
    if st.recent_executions.len() >= RECENT_CAP {
        let _ = st.recent_executions.remove(0);
    }
    let item = ExecutionSummary {
        action: action.to_owned(),
        success,
        preview: char_cap(output, PREVIEW_CHARS),
        at,
        undo_id,
    };
    st.recent_executions.push(item);
    assert(st.recent_executions@ =~= pushed(before, item, RECENT_CAP as int));
}

/// Copy a snapshot's live readings into the state. Whatever the collected state says
/// becomes what is shown.
pub fn apply_live_metrics(st: &mut SvcState, sys: &SystemState)
    ensures
        *final(st) == (SvcState {
            cpu: sys.cpu_usage_percent,
            memory: sys.memory_usage_percent,
            disk: sys.disk_usage_percent,
            failed_services: final(st).failed_services,
            signals_at: sys.collected_at,
            signal_errors: final(st).signal_errors,
            ..*old(st)
        }),
        final(st).failed_services@ == sys.failed_services@,
        final(st).signal_errors@ == sys.collector_errors@,
{
    st.cpu = sys.cpu_usage_percent;
    st.memory = sys.memory_usage_percent;
    st.disk = sys.disk_usage_percent;
    st.failed_services = copy_list(&sys.failed_services);
    st.signals_at = sys.collected_at;
    st.signal_errors = copy_list(&sys.collector_errors);
}

/// Rebuild what is shown of the questions, with an error where there is one.
pub fn refresh_ask(st: &mut SvcState, error: Option<String>)
    ensures
        *final(st) == (SvcState { ask: final(st).ask, ..*old(st) }),
        final(st).ask is Some,
        final(st).ask->0.running == old(st).ask_running,
        final(st).ask->0.error == error,
        old(st).ask_entries.same_as(&final(st).ask->0.entries),
{
    let entries = st.ask_entries.copied();
    st.ask = Some(AskStatus { running: st.ask_running, error, entries });
}

// ── Startup entries ───────────────────────────────────────────────────────────

/// Whether two users are known and the same, in any ASCII case.
pub open spec fn same_user(a: Option<Seq<char>>, b: Option<Seq<char>>) -> bool {
    match (a, b) {
        (Some(x), Some(y)) => same_ignoring_ascii_case(x, y),
        _ => false,
    }
}

/// The view of an optional reference to a text.
pub open spec fn ref_view(o: Option<&str>) -> Option<Seq<char>> {
    match o {
        Some(s) => Some(s@),
        None => None,
    }
}

/// Whether the owner of some entries is the active user; an unknown user is neither.
pub fn startup_owner_matches(owner_sid: Option<&str>, active_sid: Option<&str>) -> (r: bool)
    ensures
        r == same_user(ref_view(owner_sid), ref_view(active_sid)),
{
    match (owner_sid, active_sid) {
        (Some(owner), Some(active)) => eq_ignore_ascii_case(owner, active),
        _ => false,
    }
}

/// Whether two users are the same; none is the same as none.
pub fn optional_sids_match(left: Option<&str>, right: Option<&str>) -> (r: bool)
    ensures
        r == (same_user(ref_view(left), ref_view(right)) || (left is None && right is None)),
{
    match (left, right) {
        (None, None) => true,
        (Some(a), Some(b)) => eq_ignore_ascii_case(a, b),
        _ => false,
    }
}

/// Whether the watched directories belong to a user who is no longer the active one.
pub fn watch_roots_need_clearing(owner_sid: Option<&str>, active_sid: Option<&str>) -> (r: bool)
    ensures
        r == (owner_sid is Some && !same_user(ref_view(owner_sid), ref_view(active_sid))),
{
    owner_sid.is_some() && !optional_sids_match(owner_sid, active_sid)
}

/// The directories that were discovered, if the active user was the same before and after.
pub fn discover_watch_dirs_for_stable_user(
    before: Option<String>,
    directories: Option<Vec<String>>,
    after: Option<String>,
) -> (r: Option<(String, Vec<String>)>)
    ensures
        match r {
            Some((owner, dirs)) => before == Some(owner) && directories == Some(dirs) && same_user(
                opt_view(before),
                opt_view(after),
            ),
            None => directories is None || !same_user(opt_view(before), opt_view(after)),
        },
{
    match (before, directories, after) {
        (Some(owner), Some(dirs), Some(now)) => {
            if eq_ignore_ascii_case(owner.as_str(), now.as_str()) {
                Some((owner, dirs))
            } else {
                None
            }
        },
        _ => None,
    }
}

/// What is to be done about the watched directories when the active user is looked at.
pub struct WatchStep {
    /// Stop watching the directories of the user before.
    pub clear: bool,
    /// Look for the directories of this user.
    pub discover: Option<String>,
}

/// Whose directories are watched, once the active user has been looked at: those of another
/// user are given up at once, before any others are found.
pub fn watch_session_step(owner_sid: &mut Option<String>, current: Option<String>) -> (r: WatchStep)
    ensures
        ({
            let owner = opt_view(*old(owner_sid));
            let active = opt_view(current);
            if same_user(owner, active) || (owner is None && active is None) {
                !r.clear && r.discover is None && *final(owner_sid) == *old(owner_sid)
            } else {
                &&& r.clear == owner is Some
                &&& r.discover == current
                &&& *final(owner_sid) is None
            }
        }),
{
    let owner = match &*owner_sid {
        Some(sid) => Some(sid.as_str()),
        None => None,
    };
    let active = match &current {
        Some(sid) => Some(sid.as_str()),
        None => None,
    };
    if optional_sids_match(owner, active) {
        return WatchStep { clear: false, discover: None };
    }
    let clear = watch_roots_need_clearing(owner, active);
    *owner_sid = None;
    WatchStep { clear, discover: current }
}

/// Take the directories that were found for a user, if they are that user's; the
/// directories to watch.
pub fn watch_session_found(
    owner_sid: &mut Option<String>,
    expected: &str,
    found: Option<(String, Vec<String>)>,
) -> (r: Option<Vec<String>>)
    ensures
        match found {
            Some((sid, dirs)) if same_ignoring_ascii_case(expected@, sid@) => r == Some(dirs)
                && *final(owner_sid) == Some(sid),
            _ => r is None && *final(owner_sid) == *old(owner_sid),
        },
{
    match found {
        Some((sid, dirs)) => {
            if eq_ignore_ascii_case(expected, sid.as_str()) {
                *owner_sid = Some(sid);
                Some(dirs)
            } else {
                None
            }
        },
        None => None,
    }
}

/// Forget the startup entries of a user who is not the active one; whether there were any
/// to forget.
pub fn clear_stale_startup_cache(st: &mut SvcState, active_sid: Option<&str>) -> (r: bool)
    ensures
        r == (old(st).startup_owner_sid is Some && !same_user(
            opt_view(old(st).startup_owner_sid),
            ref_view(active_sid),
        )),
        !r ==> *final(st) == *old(st),
        r ==> *final(st) == (SvcState {
            startup: None,
            startup_owner_sid: None,
            startup_scan_running: false,
            startup_targets: final(st).startup_targets,
            ..*old(st)
        }) && final(st).startup_targets@.len() == 0,
        old(st).wf() ==> final(st).wf(),
{
    let stale = match &st.startup_owner_sid {
        Some(owner) => !startup_owner_matches(Some(owner.as_str()), active_sid),
        None => false,
    };
    if stale {
        st.startup = None;
        st.startup_owner_sid = None;
        st.startup_scan_running = false;
        st.startup_targets = Vec::new();
    }
    stale
}

// ── The payload ───────────────────────────────────────────────────────────────

/// The approvals as they are shown, in order.
pub open spec fn shown_approvals(pending: Seq<PendingApproval>, infos: Seq<ApprovalInfo>) -> bool {
    infos.len() == pending.len() && forall|i: int|
        0 <= i < pending.len() ==> (#[trigger] pending[i]).info.same_as(&infos[i])
}

/// Whether a payload tells what the state is. Startup entries are told to the user whose
/// they are alone.
pub open spec fn tells(
    st: SvcState,
    who: ServiceIdentity,
    active_sid: Option<Seq<char>>,
    now: i64,
    p: StatusPayload,
) -> bool {
    &&& p.protocol_version == who.protocol_version
    &&& who.capabilities.same_as(&p.capabilities)
    &&& opt_view(p.svc_version) == Some(who.version@)
    &&& p.status@ == st.status@
    &&& p.paused == st.paused
    &&& p.cpu == st.cpu
    &&& p.memory == st.memory
    &&& p.disk == st.disk
    &&& p.failed_services@ == st.failed_services@
    &&& p.last_analysis@ == st.last_analysis@
    &&& p.last_analysis_at == st.last_analysis_unix
    &&& st.recent_problems.same_as(&p.recent_problems)
    &&& st.recent_executions.same_as(&p.recent_executions)
    &&& shown_approvals(st.pending@, p.pending_approvals@)
    &&& st.error.same_as(&p.error)
    &&& st.usage.same_as(&p.usage)
    &&& st.settings.same_as(&p.settings)
    &&& p.updater is Some
    &&& st.updater.same_as(&p.updater->0)
    &&& st.advisor.same_as(&p.advisor)
    &&& st.learned_facts.same_as(&p.learned_facts)
    &&& p.action_preferences@.len() == 0
    &&& st.digest.same_as(&p.digest)
    &&& st.history.same_as(&p.history)
    &&& st.ask.same_as(&p.ask)
    &&& st.disk_insights.same_as(&p.disk_insights)
    &&& if same_user(opt_view(st.startup_owner_sid), active_sid) {
        st.startup.same_as(&p.startup)
    } else {
        p.startup is None
    }
    &&& p.gaming == gaming_at(st, now)
    &&& p.signals_at == st.signals_at
    &&& p.signal_errors@ == st.signal_errors@
}

fn approval_infos(pending: &Vec<PendingApproval>) -> (r: Vec<ApprovalInfo>)
    ensures
        shown_approvals(pending@, r@),
{
    let mut r: Vec<ApprovalInfo> = Vec::new();
    let mut i: usize = 0;
    while i < pending.len()
        invariant
            i <= pending@.len(),
            r@.len() == i,
            forall|k: int| 0 <= k < i ==> (#[trigger] pending@[k]).info.same_as(&r@[k]),
        decreases pending@.len() - i,
    {
        let info = pending[i].info.copied();
        r.push(info);
        i += 1;
    }
    r
}

/// What the user interface is told.
pub fn build_status(
    st: &SvcState,
    who: &ServiceIdentity,
    active_sid: Option<&str>,
    now: i64,
) -> (r: StatusPayload)
    ensures
        tells(*st, *who, ref_view(active_sid), now, r),
{
    let owner = match &st.startup_owner_sid {
        Some(sid) => Some(sid.as_str()),
        None => None,
    };
    let startup = if startup_owner_matches(owner, active_sid) {
        st.startup.copied()
    } else {
        None
    };
    StatusPayload {
        protocol_version: who.protocol_version,
        capabilities: who.capabilities.copied(),
        status: st.status.clone(),
        paused: st.paused,
        cpu: st.cpu,
        memory: st.memory,
        disk: st.disk,
        failed_services: copy_list(&st.failed_services),
        last_analysis: st.last_analysis.clone(),
        last_analysis_at: st.last_analysis_unix,
        recent_problems: st.recent_problems.copied(),
        recent_executions: st.recent_executions.copied(),
        pending_approvals: approval_infos(&st.pending),
        error: st.error.copied(),
        usage: st.usage.copied(),
        settings: st.settings.copied(),
        updater: Some(st.updater.copied()),
        advisor: st.advisor.copied(),
        learned_facts: st.learned_facts.copied(),
        action_preferences: Vec::new(),
        digest: st.digest.copied(),
        history: st.history.copied(),
        ask: st.ask.copied(),
        disk_insights: st.disk_insights.copied(),
        startup,
        gaming: is_gaming_at(st, now),
        svc_version: Some(who.version.clone()),
        signals_at: st.signals_at,
        signal_errors: copy_list(&st.signal_errors),
    }
}

/// A user who is not the owner of the startup entries is not told them.
pub proof fn startup_entries_stay_with_their_user(
    st: SvcState,
    who: ServiceIdentity,
    active_sid: Option<Seq<char>>,
    now: i64,
    p: StatusPayload,
)
    requires
        tells(st, who, active_sid, now, p),
        !same_user(opt_view(st.startup_owner_sid), active_sid),
    ensures
        p.startup is None,
{
}

// ── What the state promises ───────────────────────────────────────────────────

/// Taking an action out of those in flight takes out that one alone, and keeps the order of
/// the rest.
pub proof fn others_stay_in_flight(s: Seq<String>, key: Seq<char>)
    ensures
        without(s, key) == s.filter(|t: String| t@ != key),
    decreases s.len(),
{
    reveal(Seq::filter);
    if s.len() > 0 {
        others_stay_in_flight(s.drop_last(), key);
    }
}

/// An action that is in flight or awaits a decision is under way; no other is.
pub proof fn under_way_is_in_flight_or_asked(st: SvcState, key: Seq<char>)
    ensures
        occupied(st, key) <==> (exists|i: int|
            0 <= i < st.in_flight@.len() && (#[trigger] st.in_flight@[i])@ == key) || (exists|
            i: int,
        |
            0 <= i < st.pending@.len() && (#[trigger] st.pending@[i]).action.key() == key),
{
}

/// What is kept to be shown is the newest of what came: the last item is the new one, those
/// before it are the latest of the old ones in their order, and none leaves below the cap.
pub proof fn newest_are_kept<A>(s: Seq<A>, x: A, cap: int)
    requires
        s.len() <= cap,
        cap > 0,
    ensures
        pushed(s, x, cap).last() == x,
        pushed(s, x, cap).len() == (if s.len() < cap {
            s.len() as int + 1
        } else {
            cap
        }),
        forall|i: int|
            0 <= i < pushed(s, x, cap).len() - 1 ==> #[trigger] pushed(s, x, cap)[i] == s[i
                + s.len() + 1 - pushed(s, x, cap).len()],
{
}

/// The tray's lease lasts from the message until its time is over and no longer; the user's
/// switch lasts until it is switched back.
pub proof fn game_mode_lasts(st: SvcState, now: i64, lease: i64, t: i64)
    requires
        i64::MIN <= now + lease <= i64::MAX,
    ensures
        !st.gaming_manual ==> (gaming_at(
            SvcState { gaming_until: lease_after(st, true, false, now, lease), ..st },
            t,
        ) <==> t < now + lease),
        gaming_at(SvcState { gaming_manual: true, ..st }, t),
        t >= 0 ==> !gaming_at(
            SvcState {
                gaming_manual: false,
                gaming_until: lease_after(st, false, false, now, lease),
                ..st
            },
            t,
        ),
        lease_after(st, true, true, now, lease) == st.gaming_until,
{
}

/// A scheduled update check starts once its interval is over, or where none was ever made, if
/// the updater is on and nothing is paused, running or playing; and at no other time.
pub proof fn updates_come_due(
    enabled: bool,
    interval: i64,
    last_run: i64,
    st: SvcState,
    now: i64,
)
    requires
        i64::MIN <= now - last_run <= i64::MAX,
    ensures
        update_is_due(enabled, interval, last_run, st, now) <==> enabled && !st.paused
            && !st.updater_running && !st.gaming_manual && st.gaming_until <= now && (last_run == 0
            || now >= last_run + interval),
{
}

/// What the status says: that the service is paused before all else, then that a game runs,
/// that the user is asked, that something is under way; and active only where none of these
/// holds.
pub proof fn status_says_what_holds(st: SvcState, now: i64)
    ensures
        st.paused ==> settled(st, now) == "Paused"@,
        !st.paused && (st.gaming_manual || now < st.gaming_until) ==> settled(st, now)
            == "Gaming"@,
        !st.paused && !st.gaming_manual && st.gaming_until <= now && st.pending@.len() > 0
            ==> settled(st, now) == "PendingApproval"@,
        !st.paused && !st.gaming_manual && st.gaming_until <= now && st.pending@.len() == 0
            && st.in_flight@.len() > 0 ==> settled(st, now) == "Executing"@,
        !st.paused && !st.gaming_manual && st.gaming_until <= now && st.pending@.len() == 0
            && st.in_flight@.len() == 0 ==> settled(st, now) == "Active"@,
{
}

/// A sum and a difference that fit are exact; one that does not is the nearest number.
pub proof fn capped_numbers_are_the_nearest(a: i64, b: i64)
    ensures
        i64::MIN <= a + b <= i64::MAX ==> capped_sum(a, b) == a + b,
        a + b > i64::MAX ==> capped_sum(a, b) == i64::MAX,
        a + b < i64::MIN ==> capped_sum(a, b) == i64::MIN,
        i64::MIN <= a - b <= i64::MAX ==> capped_difference(a, b) == a - b,
        a - b > i64::MAX ==> capped_difference(a, b) == i64::MAX,
        a - b < i64::MIN ==> capped_difference(a, b) == i64::MIN,
{
}

/// A user who is not known is the same as no one, and a known one is the same as another
/// exactly where their names differ in ASCII case at most.
pub proof fn unknown_users_are_no_one(a: Option<Seq<char>>, b: Option<Seq<char>>)
    ensures
        a is None || b is None ==> !same_user(a, b),
        a is Some && b is Some ==> (same_user(a, b) <==> ascii_lowercase(a->0) == ascii_lowercase(
            b->0,
        )),
{
}

/// What the user interface is told of the service is what the state holds: nothing that
/// awaits a decision is left out, out of order, or under another number.
pub proof fn told_approvals_are_those_that_wait(
    st: SvcState,
    who: ServiceIdentity,
    active_sid: Option<Seq<char>>,
    now: i64,
    p: StatusPayload,
    i: int,
)
    requires
        tells(st, who, active_sid, now, p),
        0 <= i < st.pending@.len(),
    ensures
        p.pending_approvals@.len() == st.pending@.len(),
        p.pending_approvals@[i].id == st.pending@[i].info.id,
        p.pending_approvals@[i].action@ == st.pending@[i].info.action@,
        p.status@ == st.status@,
        p.paused == st.paused,
        p.cpu == st.cpu && p.memory == st.memory && p.disk == st.disk,
        p.gaming <==> (st.gaming_manual || now < st.gaming_until),
        p.startup is Some ==> st.startup_owner_sid is Some && active_sid is Some
            && ascii_lowercase((st.startup_owner_sid->0)@) == ascii_lowercase(active_sid->0),
{
    assert(st.pending@[i].info.same_as(&p.pending_approvals@[i]));
}

// ── What the operations do ────────────────────────────────────────────────────

/// A user's own word about a game holds until it is taken back; a word of the tray holds for the
/// lease, and either leaves the other alone.
pub proof fn word_about_a_game_is_taken(
    st: &mut SvcState,
    on: bool,
    manual: bool,
    now: i64,
    lease: i64,
)
    requires
        call_ensures(apply_set_gaming, (st, on, manual, now, lease), ()),
    ensures
        manual ==> final(st).gaming_manual == on && final(st).gaming_until == lease_after(
            *old(st),
            on,
            manual,
            now,
            lease,
        ),
        !manual ==> final(st).gaming_manual == old(st).gaming_manual,
        !manual && on && 0 < lease && now <= i64::MAX - lease ==> gaming_at(*final(st), now),
        manual && on ==> gaming_at(*final(st), now),
        final(st).paused == old(st).paused && final(st).pending == old(st).pending,
{
}

/// An action is put under way once: a new one behind the others, one that is there stays there.
pub proof fn action_is_under_way_once(st: &mut SvcState, key: &str, r: bool)
    requires
        call_ensures(insert_in_flight, (st, key), r),
    ensures
        r <==> !listed(old(st).in_flight@, key@),
        !r ==> final(st).in_flight == old(st).in_flight,
        r ==> final(st).in_flight@.drop_last() == old(st).in_flight@ && final(st).in_flight@.last()@ == key@,
        final(st).pending == old(st).pending,
{
}

/// An action that ends is no longer under way, and every other still is, in order.
pub proof fn ended_action_leaves_the_others(st: &mut SvcState, key: &str)
    requires
        call_ensures(remove_in_flight, (st, key), ()),
    ensures
        final(st).in_flight@ == old(st).in_flight@.filter(|t: String| t@ != key@),
        final(st).pending == old(st).pending,
{
    let name = key@;
    others_stay_in_flight(old(st).in_flight@, name);
    assert((|t: String| t@ != key@) =~= (|t: String| t@ != name));
}

/// A problem that is noted is the last one, in its own words.
pub proof fn noted_problem_is_the_last(
    st: &mut SvcState,
    diagnosis: &str,
    confidence: Metric,
    action: &str,
    blocked: bool,
    auto_executed: bool,
    reason: Option<String>,
    at: i64,
)
    requires
        call_ensures(
            push_problem,
            (st, diagnosis, confidence, action, blocked, auto_executed, reason, at),
            (),
        ),
    ensures
        ({
            let p = final(st).recent_problems@.last();
            &&& final(st).recent_problems@.len() > 0
            &&& p.diagnosis@ == diagnosis@ && p.action@ == action@ && p.confidence == confidence
            &&& p.blocked == blocked && p.auto_executed == auto_executed && p.at == at
            &&& opt_view(p.reason) == opt_view(reason)
        }),
        final(st).recent_executions == old(st).recent_executions && final(st).pending == old(st).pending,
{
}

/// An execution that is noted is the last one, with how it went and what undoes it.
pub proof fn noted_execution_is_the_last(
    st: &mut SvcState,
    action: &str,
    success: bool,
    output: &str,
    undo_id: Option<i64>,
    at: i64,
)
    requires
        call_ensures(push_execution, (st, action, success, output, undo_id, at), ()),
    ensures
        ({
            let e = final(st).recent_executions@.last();
            &&& final(st).recent_executions@.len() > 0
            &&& e.action@ == action@ && e.success == success && e.undo_id == undo_id && e.at == at
            &&& output@.len() <= 120 ==> e.preview@ == output@
        }),
        final(st).recent_problems == old(st).recent_problems && final(st).pending == old(st).pending,
{
}

/// The live readings are those of the machine's state, each in its place.
pub proof fn live_readings_are_shown(st: &mut SvcState, sys: &SystemState)
    requires
        call_ensures(apply_live_metrics, (st, sys), ()),
    ensures
        final(st).cpu == sys.cpu_usage_percent,
        final(st).memory == sys.memory_usage_percent,
        final(st).disk == sys.disk_usage_percent,
        final(st).signals_at == sys.collected_at,
        final(st).failed_services@ == sys.failed_services@,
        final(st).signal_errors@ == sys.collector_errors@,
        final(st).paused == old(st).paused && final(st).status == old(st).status,
{
}

/// Two users are the same where both are known and their names differ in ASCII case at most; where
/// both are unknown they are taken to be the same only where that is asked for.
pub proof fn users_are_told_apart(a: Option<&str>, b: Option<&str>, owner: bool, same: bool)
    requires
        call_ensures(startup_owner_matches, (a, b), owner),
        call_ensures(optional_sids_match, (a, b), same),
    ensures
        a is Some && b is Some ==> owner == same_ignoring_ascii_case(a->0@, b->0@) && same == owner,
        a is None || b is None ==> !owner,
        a is None && b is None ==> same,
        a is Some != b is Some ==> !same,
{
}

/// What is watched for a user is dropped where that user is no longer the active one.
pub proof fn watching_ends_with_the_session(owner: Option<&str>, active: Option<&str>, r: bool)
    requires
        call_ensures(watch_roots_need_clearing, (owner, active), r),
    ensures
        owner is None ==> !r,
        owner is Some && active is None ==> r,
        owner is Some && active is Some ==> r == !same_ignoring_ascii_case(owner->0@, active->0@),
{
}

/// Directories are taken for a user only where the same user was active before and after they were
/// looked for.
pub proof fn directories_are_taken_for_a_stable_user(
    before: Option<String>,
    directories: Option<Vec<String>>,
    after: Option<String>,
    r: Option<(String, Vec<String>)>,
)
    requires
        call_ensures(discover_watch_dirs_for_stable_user, (before, directories, after), r),
    ensures
        r is Some <==> directories is Some && before is Some && after is Some
            && same_ignoring_ascii_case(before->0@, after->0@),
        r matches Some((owner, dirs)) ==> before == Some(owner) && directories == Some(dirs),
{
}

/// A change of the active user drops what is watched for the last one, and looks for the new one's
/// directories; no change does nothing.
pub proof fn change_of_user_changes_what_is_watched(
    owner: &mut Option<String>,
    current: Option<String>,
    r: WatchStep,
)
    requires
        call_ensures(watch_session_step, (owner, current), r),
    ensures
        *old(owner) is None && current is None ==> !r.clear && r.discover is None,
        *old(owner) is Some && current is Some && same_ignoring_ascii_case(
            (*old(owner))->0@,
            current->0@,
        ) ==> !r.clear && r.discover is None && *final(owner) == *old(owner),
        *old(owner) is Some && (current is None || !same_ignoring_ascii_case(
            (*old(owner))->0@,
            current->0@,
        )) ==> r.clear && *final(owner) is None && r.discover == current,
        *old(owner) is None && current is Some ==> !r.clear && r.discover == current,
{
}

/// The directories that were found are taken for the user they were looked for.
pub proof fn found_directories_are_taken_for_their_user(
    owner: &mut Option<String>,
    expected: &str,
    found: Option<(String, Vec<String>)>,
    r: Option<Vec<String>>,
)
    requires
        call_ensures(watch_session_found, (owner, expected, found), r),
    ensures
        r is Some <==> found is Some && same_ignoring_ascii_case(expected@, (found->0).0@),
        r is Some ==> r->0 == (found->0).1 && *final(owner) == Some((found->0).0),
        r is None ==> *final(owner) == *old(owner),
{
}

/// The startup entries of a user who is not the active one are forgotten; those of the active one
/// are kept.
pub proof fn stale_entries_are_forgotten(st: &mut SvcState, active: Option<&str>, r: bool)
    requires
        call_ensures(clear_stale_startup_cache, (st, active), r),
    ensures
        !r ==> *final(st) == *old(st),
        r ==> final(st).startup is None && final(st).startup_owner_sid is None && final(st).startup_targets@.len() == 0 && !final(st).startup_scan_running,
        old(st).startup_owner_sid is None ==> !r,
        old(st).startup_owner_sid is Some && active is None ==> r,
        old(st).startup_owner_sid is Some && active is Some ==> r == !same_ignoring_ascii_case(
            (old(st).startup_owner_sid->0)@,
            active->0@,
        ),
{
}

/// A status tells what is kept: the readings, the problems, the executions and the approvals, each
/// as it is, the updater and the advisor, and no startup entries of a user who is not the active
/// one.
pub proof fn status_tells_what_is_kept(
    st: &SvcState,
    who: &ServiceIdentity,
    active: Option<&str>,
    now: i64,
    p: StatusPayload,
    i: int,
)
    requires
        call_ensures(build_status, (st, who, active, now), p),
    ensures
        p.status@ == st.status@ && p.paused == st.paused && p.cpu == st.cpu && p.memory == st.memory
            && p.disk == st.disk && p.failed_services@ == st.failed_services@,
        p.last_analysis@ == st.last_analysis@ && p.last_analysis_at == st.last_analysis_unix
            && p.signals_at == st.signals_at && p.signal_errors@ == st.signal_errors@,
        p.protocol_version == who.protocol_version && opt_view(p.svc_version) == Some(who.version@),
        p.recent_problems@.len() == st.recent_problems@.len(),
        0 <= i < st.recent_problems@.len() ==> p.recent_problems@[i].diagnosis@
            == st.recent_problems@[i].diagnosis@ && p.recent_problems@[i].blocked
            == st.recent_problems@[i].blocked && p.recent_problems@[i].at
            == st.recent_problems@[i].at,
        p.recent_executions@.len() == st.recent_executions@.len(),
        0 <= i < st.recent_executions@.len() ==> p.recent_executions@[i].action@
            == st.recent_executions@[i].action@ && p.recent_executions@[i].success
            == st.recent_executions@[i].success && p.recent_executions@[i].undo_id
            == st.recent_executions@[i].undo_id,
        p.pending_approvals@.len() == st.pending@.len(),
        0 <= i < st.pending@.len() ==> p.pending_approvals@[i].id == st.pending@[i].info.id
            && p.pending_approvals@[i].target@ == st.pending@[i].info.target@,
        opt_view(p.error) == opt_view(st.error),
        p.updater is Some && p.updater->0.running == st.updater.running && p.updater->0.last_run
            == st.updater.last_run,
        p.advisor is Some <==> st.advisor is Some,
        p.digest is Some <==> st.digest is Some,
        p.ask is Some <==> st.ask is Some,
        p.usage is Some <==> st.usage is Some,
        p.settings is Some <==> st.settings is Some,
        p.disk_insights is Some <==> st.disk_insights is Some,
        p.history@.len() == st.history@.len() && p.learned_facts@.len() == st.learned_facts@.len(),
        p.gaming == gaming_at(*st, now),
        active is None || st.startup_owner_sid is None ==> p.startup is None,
{
    if 0 <= i < st.recent_problems@.len() {
        assert(st.recent_problems@[i].same_as(&p.recent_problems@[i]));
    }
    if 0 <= i < st.recent_executions@.len() {
        assert(st.recent_executions@[i].same_as(&p.recent_executions@[i]));
    }
    if 0 <= i < st.pending@.len() {
        assert(st.pending@[i].info.same_as(&p.pending_approvals@[i]));
    }
}

} // verus!
