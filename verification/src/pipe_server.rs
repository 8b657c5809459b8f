//! The channel between the service and the user interface: who may use it, how its lines
//! are framed, and what a status becomes that is too large for one.

use crate::copied::Copied;
use crate::metric::{amount_or_zero, finite, finite_amount, finite_or_zero};
use crate::paths::{
    Component, ComponentModel, PrefixKind, component_views, components, parse_components,
    path_on_a_drive_has_its_names, path_prefix, pieces_are_names,
    plain_path_has_its_names, separates,
};
use crate::proto::{
    AdvisorSettingsView, AdvisorStatus, ApprovalInfo, CommandResult, MetricPoint, ProblemSummary,
    ServiceIdentity, StatusPayload, UiSettings, UpdaterStatus, UsageSummary,
};
use crate::text::{
    eq_ignore_ascii_case, exact_utf8, opt_view, same_ignoring_ascii_case, split_on, trim, trimmed,
};
use vstd::prelude::*;
use vstd::string::*;
use vstd::utf8::*;

verus! {

/// Largest line taken from the user interface. A client that sends more is dropped.
pub const MAX_UI_LINE_BYTES: usize = 12 * 1024 * 1024;

/// Largest line sent to the user interface, its line feed included.
pub const MAX_SERVICE_LINE_BYTES: usize = 12 * 1024 * 1024;

/// Approvals that one status lists.
pub const MAX_STATUS_PENDING_APPROVALS: usize = 32;

/// Approvals that a status lists once its details have been left out.
pub const MAX_RECOVERY_APPROVALS: usize = 8;

/// Learned facts that one status lists.
pub const MAX_STATUS_LEARNED_FACTS: usize = 512;

/// Preferences that one status lists.
pub const MAX_STATUS_ACTION_PREFERENCES: usize = 256;

/// What the interactive user may do to the pipe: read and write data, and nothing that
/// would let a client pose as a server.
pub const INTERACTIVE_PIPE_ACCESS: u32 = 0x0012_008B;

/// Who may open the pipe: the system, administrators and the owner in full, the interactive
/// user as a client; nothing of low integrity may read or write it.
pub const PIPE_SDDL: &'static str =
    "D:(A;;GA;;;SY)(A;;GA;;;BA)(A;;GA;;;OW)(A;;0x0012008b;;;IU)S:(ML;;NWNR;;;ME)";

/// Where the socket stands unless it is configured to stand elsewhere.
pub const DEFAULT_SOCKET_PATH: &'static str = "/run/eir/eir.sock";

// ── Bounded statuses ──────────────────────────────────────────────────────────

/// The first items of a sequence, at most `cap` of them.
pub open spec fn at_most<A>(s: Seq<A>, cap: int) -> Seq<A> {
    if s.len() <= cap {
        s
    } else {
        s.take(cap)
    }
}

/// An approval whose confidence can be written down.
pub open spec fn wire_approval(a: ApprovalInfo) -> ApprovalInfo {
    ApprovalInfo { confidence: finite_or_zero(a.confidence), ..a }
}

/// A problem whose confidence can be written down.
pub open spec fn wire_problem(p: ProblemSummary) -> ProblemSummary {
    ProblemSummary { confidence: finite_or_zero(p.confidence), ..p }
}

/// A reading whose numbers can be written down.
pub open spec fn wire_point(p: MetricPoint) -> MetricPoint {
    MetricPoint {
        at: p.at,
        cpu: finite_or_zero(p.cpu),
        memory: finite_or_zero(p.memory),
        disk: finite_or_zero(p.disk),
    }
}

/// Costs that can be written down.
pub open spec fn wire_usage(u: Option<UsageSummary>) -> Option<UsageSummary> {
    match u {
        Some(u) => Some(
            UsageSummary {
                cost_today_usd: amount_or_zero(u.cost_today_usd),
                cost_week_usd: amount_or_zero(u.cost_week_usd),
                ..u
            },
        ),
        None => None,
    }
}

/// Settings whose threshold can be written down.
pub open spec fn wire_settings(s: Option<UiSettings>) -> Option<UiSettings> {
    match s {
        Some(s) => Some(
            UiSettings { confidence_threshold: finite_or_zero(s.confidence_threshold), ..s },
        ),
        None => None,
    }
}

/// An updater whose cost can be written down.
pub open spec fn wire_updater(u: Option<UpdaterStatus>) -> Option<UpdaterStatus> {
    match u {
        Some(u) => Some(UpdaterStatus { last_cost_usd: amount_or_zero(u.last_cost_usd), ..u }),
        None => None,
    }
}

/// An advisor whose numbers can be written down.
pub open spec fn wire_advisor(a: Option<AdvisorStatus>) -> Option<AdvisorStatus> {
    match a {
        Some(a) => Some(
            AdvisorStatus {
                spent_today_usd: amount_or_zero(a.spent_today_usd),
                settings: AdvisorSettingsView {
                    low_confidence_threshold: finite_or_zero(
                        a.settings.low_confidence_threshold,
                    ),
                    ..a.settings
                },
                ..a
            },
        ),
        None => None,
    }
}

/// Whether `r` is a status as it is sent: its lists within their caps, its numbers such as
/// can be written down, and all else as it was.
pub open spec fn as_sent(s: StatusPayload, r: StatusPayload) -> bool {
    &&& r.pending_approvals@ == at_most(
        s.pending_approvals@,
        MAX_STATUS_PENDING_APPROVALS as int,
    ).map_values(|a: ApprovalInfo| wire_approval(a))
    &&& r.learned_facts@ == at_most(s.learned_facts@, MAX_STATUS_LEARNED_FACTS as int)
    &&& r.action_preferences@ == at_most(
        s.action_preferences@,
        MAX_STATUS_ACTION_PREFERENCES as int,
    )
    &&& r.history@ == s.history@.map_values(|p: MetricPoint| wire_point(p))
    &&& r.recent_problems@ == s.recent_problems@.map_values(|p: ProblemSummary| wire_problem(p))
    &&& r == (StatusPayload {
        cpu: finite_or_zero(s.cpu),
        memory: finite_or_zero(s.memory),
        disk: finite_or_zero(s.disk),
        usage: wire_usage(s.usage),
        settings: wire_settings(s.settings),
        updater: wire_updater(s.updater),
        advisor: wire_advisor(s.advisor),
        pending_approvals: r.pending_approvals,
        learned_facts: r.learned_facts,
        action_preferences: r.action_preferences,
        history: r.history,
        recent_problems: r.recent_problems,
        ..s
    })
}

/// Whether every number of a status can be written down in JSON.
pub open spec fn all_finite(s: StatusPayload) -> bool {
    &&& finite(s.cpu) && finite(s.memory) && finite(s.disk)
    &&& forall|i: int|
        0 <= i < s.history@.len() ==> finite((#[trigger] s.history@[i]).cpu) && finite(
            s.history@[i].memory,
        ) && finite(s.history@[i].disk)
    &&& forall|i: int|
        0 <= i < s.recent_problems@.len() ==> finite((#[trigger] s.recent_problems@[i]).confidence)
    &&& forall|i: int|
        0 <= i < s.pending_approvals@.len() ==> finite(
            (#[trigger] s.pending_approvals@[i]).confidence,
        )
    &&& s.usage is Some ==> finite_amount(s.usage->0.cost_today_usd) && finite_amount(
        s.usage->0.cost_week_usd,
    )
    &&& s.settings is Some ==> finite(s.settings->0.confidence_threshold)
    &&& s.updater is Some ==> finite_amount(s.updater->0.last_cost_usd)
    &&& s.advisor is Some ==> finite_amount(s.advisor->0.spent_today_usd) && finite(
        s.advisor->0.settings.low_confidence_threshold,
    )
}

/// A status that is sent holds no number that JSON cannot write down, and no more approvals,
/// facts and preferences than a client takes.
pub proof fn sent_status_can_be_written_down(s: StatusPayload, r: StatusPayload)
    requires
        as_sent(s, r),
    ensures
        all_finite(r),
        r.pending_approvals@.len() <= MAX_STATUS_PENDING_APPROVALS,
        r.learned_facts@.len() <= MAX_STATUS_LEARNED_FACTS,
        r.action_preferences@.len() <= MAX_STATUS_ACTION_PREFERENCES,
{
}

/// A status that could be sent is sent as it is: once it has been made ready, making it
/// ready again changes nothing.
pub proof fn ready_status_is_sent_as_it_is(s: StatusPayload, r: StatusPayload)
    requires
        as_sent(s, r),
    ensures
        as_sent(r, r),
{
    sent_status_can_be_written_down(s, r);
    assert(at_most(r.pending_approvals@, MAX_STATUS_PENDING_APPROVALS as int).map_values(
        |a: ApprovalInfo| wire_approval(a),
    ) =~= r.pending_approvals@);
    assert(at_most(r.learned_facts@, MAX_STATUS_LEARNED_FACTS as int) =~= r.learned_facts@);
    assert(at_most(r.action_preferences@, MAX_STATUS_ACTION_PREFERENCES as int)
        =~= r.action_preferences@);
    assert(r.history@.map_values(|p: MetricPoint| wire_point(p)) =~= r.history@);
    assert(r.recent_problems@.map_values(|p: ProblemSummary| wire_problem(p))
        =~= r.recent_problems@);
}

fn wire_approvals(v: &mut Vec<ApprovalInfo>)
    ensures
        final(v)@ == old(v)@.map_values(|a: ApprovalInfo| wire_approval(a)),
{
    let ghost all = v@;
    let mut i: usize = 0;
    while i < v.len()
        invariant
            i <= v@.len(),
            v@.len() == all.len(),
            forall|k: int| 0 <= k < i ==> #[trigger] v@[k] == wire_approval(all[k]),
            forall|k: int| i <= k < all.len() ==> #[trigger] v@[k] == all[k],
        decreases v@.len() - i,
    {
        let c = v[i].confidence.or_zero();
        v[i].confidence = c;
        i += 1;
    }
    assert(v@ =~= all.map_values(|a: ApprovalInfo| wire_approval(a)));
}

fn wire_problems(v: &mut Vec<ProblemSummary>)
    ensures
        final(v)@ == old(v)@.map_values(|p: ProblemSummary| wire_problem(p)),
{
    let ghost all = v@;
    let mut i: usize = 0;
    while i < v.len()
        invariant
            i <= v@.len(),
            v@.len() == all.len(),
            forall|k: int| 0 <= k < i ==> #[trigger] v@[k] == wire_problem(all[k]),
            forall|k: int| i <= k < all.len() ==> #[trigger] v@[k] == all[k],
        decreases v@.len() - i,
    {
        let c = v[i].confidence.or_zero();
        v[i].confidence = c;
        i += 1;
    }
    assert(v@ =~= all.map_values(|p: ProblemSummary| wire_problem(p)));
}

fn wire_points(v: &mut Vec<MetricPoint>)
    ensures
        final(v)@ == old(v)@.map_values(|p: MetricPoint| wire_point(p)),
{
    let ghost all = v@;
    let mut i: usize = 0;
    while i < v.len()
        invariant
            i <= v@.len(),
            v@.len() == all.len(),
            forall|k: int| 0 <= k < i ==> #[trigger] v@[k] == wire_point(all[k]),
            forall|k: int| i <= k < all.len() ==> #[trigger] v@[k] == all[k],
        decreases v@.len() - i,
    {
        let point = MetricPoint {
            at: v[i].at,
            cpu: v[i].cpu.or_zero(),
            memory: v[i].memory.or_zero(),
            disk: v[i].disk.or_zero(),
        };
        v[i] = point;
        i += 1;
    }
    assert(v@ =~= all.map_values(|p: MetricPoint| wire_point(p)));
}

/// A status as it is sent. The queue of approvals itself stays whole; the interface gets
/// the oldest page of it, and newer ones as those are decided.
pub fn status_for_wire(status: StatusPayload) -> (r: StatusPayload)
    ensures
        as_sent(status, r),
{
    let mut r = status;
    r.pending_approvals.truncate(MAX_STATUS_PENDING_APPROVALS);
    assert(r.pending_approvals@ =~= at_most(
        status.pending_approvals@,
        MAX_STATUS_PENDING_APPROVALS as int,
    ));
    r.learned_facts.truncate(MAX_STATUS_LEARNED_FACTS);
    assert(r.learned_facts@ =~= at_most(status.learned_facts@, MAX_STATUS_LEARNED_FACTS as int));
    r.action_preferences.truncate(MAX_STATUS_ACTION_PREFERENCES);
    assert(r.action_preferences@ =~= at_most(
        status.action_preferences@,
        MAX_STATUS_ACTION_PREFERENCES as int,
    ));
    r.cpu = r.cpu.or_zero();
    r.memory = r.memory.or_zero();
    r.disk = r.disk.or_zero();
    wire_points(&mut r.history);
    wire_problems(&mut r.recent_problems);
    wire_approvals(&mut r.pending_approvals);
    r.usage = match r.usage {
        Some(mut u) => {
            u.cost_today_usd = u.cost_today_usd.or_zero();
            u.cost_week_usd = u.cost_week_usd.or_zero();
            Some(u)
        },
        None => None,
    };
    r.settings = match r.settings {
        Some(mut s) => {
            s.confidence_threshold = s.confidence_threshold.or_zero();
            Some(s)
        },
        None => None,
    };
    r.updater = match r.updater {
        Some(mut u) => {
            u.last_cost_usd = u.last_cost_usd.or_zero();
            Some(u)
        },
        None => None,
    };
    r.advisor = match r.advisor {
        Some(mut a) => {
            a.spent_today_usd = a.spent_today_usd.or_zero();
            a.settings.low_confidence_threshold = a.settings.low_confidence_threshold.or_zero();
            Some(a)
        },
        None => None,
    };
    r
}

/// What is said in place of details that were left out.
pub const OVERSIZED_STATUS: &'static str =
    "Status details were too large to display; oversized details were omitted. The next bounded refresh will restore them.";

/// Whether `r` is what is left of a status once its details are left out: the state of the
/// machine, the given approvals, and a word about what is missing.
pub open spec fn without_details(
    s: StatusPayload,
    who: ServiceIdentity,
    approvals: Seq<ApprovalInfo>,
    r: StatusPayload,
) -> bool {
    &&& r.protocol_version == s.protocol_version
    &&& who.capabilities.same_as(&r.capabilities)
    &&& r.status@ == "Error"@
    &&& r.paused == s.paused
    &&& r.cpu == s.cpu
    &&& r.memory == s.memory
    &&& r.disk == s.disk
    &&& r.last_analysis_at == s.last_analysis_at
    &&& r.pending_approvals@.len() == approvals.len()
    &&& forall|i: int|
        0 <= i < approvals.len() ==> (#[trigger] approvals[i]).same_as(&r.pending_approvals@[i])
    &&& opt_view(r.error) == Some(OVERSIZED_STATUS@)
    &&& r.gaming == s.gaming
    &&& r.signals_at == s.signals_at
    &&& opt_view(r.svc_version) == Some(who.version@)
    &&& r.failed_services@.len() == 0
    &&& r.last_analysis@.len() == 0
    &&& r.recent_problems@.len() == 0
    &&& r.recent_executions@.len() == 0
    &&& r.usage is None
    &&& r.settings is None
    &&& r.updater is None
    &&& r.advisor is None
    &&& r.learned_facts@.len() == 0
    &&& r.action_preferences@.len() == 0
    &&& r.digest is None
    &&& r.history@.len() == 0
    &&& r.ask is None
    &&& r.disk_insights is None
    &&& r.startup is None
    &&& r.signal_errors@.len() == 0
}

fn project(s: &StatusPayload, who: &ServiceIdentity, count: usize) -> (r: StatusPayload)
    ensures
        without_details(*s, *who, at_most(s.pending_approvals@, count as int), r),
{
    let mut approvals: Vec<ApprovalInfo> = Vec::new();
    let ghost page = at_most(s.pending_approvals@, count as int);
    let mut i: usize = 0;
    while i < s.pending_approvals.len() && i < count
        invariant
            i <= s.pending_approvals@.len(),
            i <= count,
            page == at_most(s.pending_approvals@, count as int),
            approvals@.len() == i,
            forall|k: int| 0 <= k < i ==> (#[trigger] page[k]).same_as(&approvals@[k]),
        decreases s.pending_approvals@.len() - i,
    {
        let info = s.pending_approvals[i].copied();
        assert(page[i as int] == s.pending_approvals@[i as int]);
        approvals.push(info);
        i += 1;
    }
    let mut r = StatusPayload::default();
    r.protocol_version = s.protocol_version;
    r.capabilities = who.capabilities.copied();
    r.status = "Error".to_owned();
    r.paused = s.paused;
    r.cpu = s.cpu;
    r.memory = s.memory;
    r.disk = s.disk;
    r.last_analysis_at = s.last_analysis_at;
    r.pending_approvals = approvals;
    r.error = Some(OVERSIZED_STATUS.to_owned());
    r.gaming = s.gaming;
    r.signals_at = s.signals_at;
    r.svc_version = Some(who.version.clone());
    r
}

/// What may be sent of a status, from all of it to the least.
pub struct StatusCandidates {
    pub full: StatusPayload,
    /// Without details, but with the first approvals.
    pub recovery: StatusPayload,
    /// Without details and without approvals.
    pub minimal: StatusPayload,
}

/// What may be sent of a status: all of it, and what is left where that is too large.
pub fn status_candidates(status: StatusPayload, who: &ServiceIdentity) -> (r: StatusCandidates)
    ensures
        as_sent(status, r.full),
        without_details(
            r.full,
            *who,
            at_most(r.full.pending_approvals@, MAX_RECOVERY_APPROVALS as int),
            r.recovery,
        ),
        without_details(r.full, *who, Seq::empty(), r.minimal),
{
    let full = status_for_wire(status);
    let recovery = project(&full, who, MAX_RECOVERY_APPROVALS);
    let minimal = project(&full, who, 0);
    assert(at_most(full.pending_approvals@, 0) =~= Seq::<ApprovalInfo>::empty());
    StatusCandidates { full, recovery, minimal }
}

/// The line to send for a status: the first of the candidates' lines that fits.
pub fn status_line(
    full: Option<Vec<u8>>,
    recovery: Option<Vec<u8>>,
    minimal: Option<Vec<u8>>,
) -> (r: Option<Vec<u8>>)
    ensures
        r == (match (full, recovery) {
            (Some(line), _) => Some(line),
            (None, Some(line)) => Some(line),
            (None, None) => minimal,
        }),
{
    match full {
        Some(line) => Some(line),
        None => match recovery {
            Some(line) => Some(line),
            None => minimal,
        },
    }
}

// ── Framing ───────────────────────────────────────────────────────────────────

/// A line under construction that refuses to grow beyond its cap.
pub struct CappedJsonLine {
    pub bytes: Vec<u8>,
    pub max_bytes: usize,
    pub overflowed: bool,
}

impl CappedJsonLine {
    /// Within its cap.
    pub open spec fn wf(self) -> bool {
        self.bytes@.len() <= self.max_bytes
    }

    /// An empty line with a cap.
    pub fn new(max_bytes: usize) -> (r: CappedJsonLine)
        ensures
            r.wf(),
            r.bytes@.len() == 0,
            r.max_bytes == max_bytes,
            !r.overflowed,
    {
        CappedJsonLine { bytes: Vec::new(), max_bytes, overflowed: false }
    }

    /// Add bytes to the line; whether they fit. Where they do not, nothing is added.
    pub fn write(&mut self, buf: &[u8]) -> (r: bool)
        requires
            old(self).wf(),
        ensures
            final(self).wf(),
            final(self).max_bytes == old(self).max_bytes,
            r == (old(self).bytes@.len() + buf@.len() <= old(self).max_bytes),
            final(self).bytes@ == (if r {
                old(self).bytes@ + buf@
            } else {
                old(self).bytes@
            }),
            final(self).overflowed == (old(self).overflowed || !r),
    {
        if buf.len() > self.max_bytes - self.bytes.len() {
            self.overflowed = true;
            return false;
        }
        let ghost before = self.bytes@;
        let mut i: usize = 0;
        assert(before + buf@.take(0) =~= before);
        while i < buf.len()
            invariant
                i <= buf@.len(),
                self.bytes@ == before + buf@.take(i as int),
                self.max_bytes == old(self).max_bytes,
                self.overflowed == old(self).overflowed,
            decreases buf@.len() - i,
        {
            self.bytes.push(buf[i]);
            assert(before + buf@.take(i + 1) =~= (before + buf@.take(i as int)).push(
                buf@[i as int],
            ));
            i += 1;
        }
        assert(buf@.take(buf@.len() as int) =~= buf@);
        true
    }
}

/// The line of an encoded message: the message and a line feed, where that fits.
pub fn service_line(message: &Vec<u8>) -> (r: Option<Vec<u8>>)
    ensures
        match r {
            Some(line) => line@ == message@.push(10u8) && line@.len() <= MAX_SERVICE_LINE_BYTES,
            None => message@.len() + 1 > MAX_SERVICE_LINE_BYTES,
        },
{
    let mut line = CappedJsonLine::new(MAX_SERVICE_LINE_BYTES - 1);
    if !line.write(message.as_slice()) {
        return None;
    }
    let mut bytes = line.bytes;
    assert(bytes@ =~= message@);
    bytes.push(10u8);
    Some(bytes)
}

/// What a read from the client comes to.
pub enum LineStep {
    /// The connection ends.
    Disconnect,
    /// There is nothing to do for the line.
    Skip,
    /// A line to decode, without the white space around it.
    Line(String),
}

/// What a read from the client comes to, with its text as characters.
pub enum HeardStep {
    Disconnect,
    Skip,
    Line(Seq<char>),
}

impl View for LineStep {
    type V = HeardStep;

    open spec fn view(&self) -> HeardStep {
        match self {
            LineStep::Disconnect => HeardStep::Disconnect,
            LineStep::Skip => HeardStep::Skip,
            LineStep::Line(text) => HeardStep::Line(text@),
        }
    }
}

/// The lines of one client.
pub struct LineReader {
    pub buf: Vec<u8>,
}

/// What a line comes to: one that is no text, or a blank one, is passed over; of any other the
/// white space around it is left out.
pub open spec fn line_told(bytes: Seq<u8>) -> HeardStep {
    if !valid_utf8(bytes) || trim(decode_utf8(bytes)).len() == 0 {
        HeardStep::Skip
    } else {
        HeardStep::Line(trim(decode_utf8(bytes)))
    }
}

/// What a read that brought the line to `bytes` comes to: a read of nothing is the end, a
/// line without its end is too long or cut off, and a session that is no longer active is
/// not listened to.
pub open spec fn line_step(bytes: Seq<u8>, read: nat, active: bool) -> HeardStep {
    if read == 0 || bytes.len() == 0 || bytes.last() != 10u8 || !active {
        HeardStep::Disconnect
    } else {
        line_told(bytes)
    }
}

fn append_bytes(buf: &mut Vec<u8>, chunk: &Vec<u8>)
    ensures
        final(buf)@ == old(buf)@ + chunk@,
{
    let ghost had = buf@;
    let mut i: usize = 0;
    assert(had + chunk@.take(0) =~= had);
    while i < chunk.len()
        invariant
            i <= chunk@.len(),
            buf@ == had + chunk@.take(i as int),
        decreases chunk@.len() - i,
    {
        buf.push(chunk[i]);
        assert(had + chunk@.take(i + 1) =~= (had + chunk@.take(i as int)).push(
            chunk@[i as int],
        ));
        i += 1;
    }
    assert(chunk@.take(chunk@.len() as int) =~= chunk@);
}

impl LineReader {
    /// Within the cap.
    pub open spec fn wf(self) -> bool {
        self.buf@.len() <= MAX_UI_LINE_BYTES
    }

    /// Nothing has been read.
    pub fn new() -> (r: LineReader)
        ensures
            r.wf(),
            r.buf@.len() == 0,
    {
        LineReader { buf: Vec::new() }
    }

    /// How many bytes may still be read of a line; none once the cap is reached.
    pub fn remaining(&self) -> (r: Option<usize>)
        requires
            self.wf(),
        ensures
            r == (if self.buf@.len() == MAX_UI_LINE_BYTES {
                None
            } else {
                Some((MAX_UI_LINE_BYTES - self.buf@.len()) as usize)
            }),
    {
        let left: usize = MAX_UI_LINE_BYTES - self.buf.len();
        if left == 0 {
            None
        } else {
            Some(left)
        }
    }

    /// Keep what a read brought before it was interrupted, no more than there was room for.
    pub fn hold(&mut self, chunk: &Vec<u8>)
        requires
            old(self).wf(),
            old(self).buf@.len() + chunk@.len() <= MAX_UI_LINE_BYTES,
        ensures
            final(self).wf(),
            final(self).buf@ == old(self).buf@ + chunk@,
    {
        append_bytes(&mut self.buf, chunk);
    }

    /// Take what was read, no more than there was room for.
    pub fn take(&mut self, chunk: &Vec<u8>, active: bool) -> (r: LineStep)
        requires
            old(self).wf(),
            old(self).buf@.len() + chunk@.len() <= MAX_UI_LINE_BYTES,
        ensures
            final(self).wf(),
            r@ == line_step(old(self).buf@ + chunk@, chunk@.len(), active),
            r is Disconnect ==> final(self).buf@ == old(self).buf@ + chunk@,
            !(r is Disconnect) ==> final(self).buf@.len() == 0,
    {
        append_bytes(&mut self.buf, chunk);
        let n: usize = self.buf.len();
        if chunk.len() == 0 || n == 0 || self.buf[n - 1] != 10u8 || !active {
            return LineStep::Disconnect;
        }
        let mut line: Vec<u8> = Vec::new();
        std::mem::swap(&mut line, &mut self.buf);
        match exact_utf8(line) {
            Some(text) => {
                let body = trimmed(text.as_str());
                if body.as_str().is_empty() {
                    LineStep::Skip
                } else {
                    LineStep::Line(body)
                }
            },
            None => LineStep::Skip,
        }
    }
}

/// A session that is no longer active is never listened to, whatever it sends.
pub proof fn inactive_session_is_not_heard(bytes: Seq<u8>, read: nat)
    ensures
        line_step(bytes, read, false) is Disconnect,
{
}

// ── What is heard of a client ─────────────────────────────────────────────────

/// One read from a client.
pub enum ReadEvent {
    /// It was interrupted, and had brought these bytes.
    Held(Seq<u8>),
    /// It brought these bytes, up to the end of a line, of the room or of what the client
    /// sends; the flag says whether the session was active then.
    Read(Seq<u8>, bool),
}

impl ReadEvent {
    /// The bytes that it brought.
    pub open spec fn bytes(self) -> Seq<u8> {
        match self {
            ReadEvent::Held(chunk) => chunk,
            ReadEvent::Read(chunk, _) => chunk,
        }
    }
}

/// What was heard of a client: the bytes of the line that has not ended, whether the
/// connection is open, and the lines to decode.
pub struct Heard {
    pub buf: Seq<u8>,
    pub open: bool,
    pub lines: Seq<Seq<char>>,
}

/// What was heard once there was one more read. The room of a line that is full ends the
/// connection.
pub open spec fn heard_more(h: Heard, event: ReadEvent) -> Heard {
    if !h.open {
        h
    } else {
        match event {
            ReadEvent::Held(chunk) => Heard {
                buf: h.buf + chunk,
                open: h.buf.len() + chunk.len() < MAX_UI_LINE_BYTES,
                lines: h.lines,
            },
            ReadEvent::Read(chunk, active) => match line_step(h.buf + chunk, chunk.len(), active) {
                HeardStep::Disconnect => Heard {
                    buf: h.buf + chunk,
                    open: false,
                    lines: h.lines,
                },
                HeardStep::Skip => Heard { buf: Seq::empty(), open: true, lines: h.lines },
                HeardStep::Line(text) => Heard {
                    buf: Seq::empty(),
                    open: true,
                    lines: h.lines.push(text),
                },
            },
        }
    }
}

/// What was heard of a client after some reads.
pub open spec fn heard(events: Seq<ReadEvent>) -> Heard
    decreases events.len(),
{
    if events.len() == 0 {
        Heard { buf: Seq::empty(), open: true, lines: Seq::empty() }
    } else {
        heard_more(heard(events.drop_last()), events.last())
    }
}

/// All the bytes that some reads brought.
pub open spec fn bytes_read(events: Seq<ReadEvent>) -> Seq<u8>
    decreases events.len(),
{
    if events.len() == 0 {
        Seq::empty()
    } else {
        bytes_read(events.drop_last()) + events.last().bytes()
    }
}

/// Whether a read goes as reads do: it brings no more than there is room for and nothing past
/// the end of a line, and it is not interrupted where it has come to one.
pub open spec fn proper_read(h: Heard, event: ReadEvent) -> bool {
    let chunk = event.bytes();
    &&& h.open
    &&& h.buf.len() + chunk.len() <= MAX_UI_LINE_BYTES
    &&& forall|i: int| 0 <= i < chunk.len() - 1 ==> #[trigger] chunk[i] != 10u8
    &&& event is Held && chunk.len() > 0 ==> chunk.last() != 10u8
}

/// Whether reads go as reads do, and the session is active at each.
pub open spec fn proper_reads(events: Seq<ReadEvent>) -> bool
    decreases events.len(),
{
    events.len() == 0 || {
        &&& proper_reads(events.drop_last())
        &&& proper_read(heard(events.drop_last()), events.last())
        &&& events.last() is Read ==> events.last()->Read_1
    }
}

/// The lines to decode of all the bytes that a client sends: each line that has ended, in
/// order, but for those that are no text or blank; a line that is too long ends them.
pub open spec fn lines_sent(sent: Seq<u8>) -> Seq<Seq<char>>
    decreases sent.len(),
{
    match sent.index_of_first(10u8) {
        Some(i) if 0 <= i < sent.len() && i < MAX_UI_LINE_BYTES => {
            let rest = lines_sent(sent.skip(i + 1));
            match line_told(sent.take(i + 1)) {
                HeardStep::Line(text) => seq![text] + rest,
                _ => rest,
            }
        },
        _ => Seq::empty(),
    }
}

/// Whether bytes are lines that have ended, none of them too long.
spec fn whole_lines(bytes: Seq<u8>) -> bool
    decreases bytes.len(),
{
    bytes.len() == 0 || match bytes.index_of_first(10u8) {
        Some(i) if 0 <= i < bytes.len() => i < MAX_UI_LINE_BYTES && whole_lines(bytes.skip(i + 1)),
        _ => false,
    }
}

proof fn lemma_first_line(bytes: Seq<u8>, i: int)
    requires
        0 <= i < bytes.len(),
        bytes[i] == 10u8,
        forall|k: int| 0 <= k < i ==> bytes[k] != 10u8,
    ensures
        bytes.index_of_first(10u8) == Some(i),
{
    bytes.index_of_first_ensures(10u8);
}

/// The lines after whole ones are the lines of what follows.
proof fn lemma_lines_after(whole: Seq<u8>, rest: Seq<u8>)
    requires
        whole_lines(whole),
    ensures
        lines_sent(whole + rest) == lines_sent(whole) + lines_sent(rest),
        whole_lines(rest) ==> whole_lines(whole + rest),
    decreases whole.len(),
{
    let all = whole + rest;
    if whole.len() == 0 {
        assert(all =~= rest);
        assert(lines_sent(whole) =~= Seq::<Seq<char>>::empty()) by {
            whole.index_of_first_ensures(10u8);
        }
        assert(lines_sent(whole) + lines_sent(rest) =~= lines_sent(rest));
    } else {
        whole.index_of_first_ensures(10u8);
        let i = whole.index_of_first(10u8)->0;
        assert forall|k: int| 0 <= k < i implies all[k] != 10u8 by {
            assert(whole[k] != 10u8);
        }
        lemma_first_line(all, i);
        lemma_lines_after(whole.skip(i + 1), rest);
        assert(all.skip(i + 1) =~= whole.skip(i + 1) + rest);
        assert(all.take(i + 1) =~= whole.take(i + 1));
        match line_told(whole.take(i + 1)) {
            HeardStep::Line(text) => {
                assert((seq![text] + lines_sent(whole.skip(i + 1))) + lines_sent(rest)
                    =~= seq![text] + (lines_sent(whole.skip(i + 1)) + lines_sent(rest)));
            },
            _ => {},
        }
    }
}

/// Nothing is heard of a line that has not ended within the cap, nor after it.
proof fn lemma_no_line(bytes: Seq<u8>, more: Seq<u8>)
    requires
        forall|k: int| 0 <= k < bytes.len() ==> bytes[k] != 10u8,
        more.len() == 0 || bytes.len() >= MAX_UI_LINE_BYTES,
    ensures
        lines_sent(bytes + more) == Seq::<Seq<char>>::empty(),
{
    let all = bytes + more;
    all.index_of_first_ensures(10u8);
    match all.index_of_first(10u8) {
        Some(i) => {
            if i < bytes.len() {
                assert(bytes[i] == all[i]);
            }
        },
        None => {},
    }
}

/// The lines that were heard are those of the bytes before the line that has not ended.
proof fn lemma_heard(events: Seq<ReadEvent>) -> (whole: Seq<u8>)
    requires
        proper_reads(events),
    ensures
        whole_lines(whole),
        bytes_read(events) == whole + heard(events).buf,
        heard(events).lines == lines_sent(whole),
        heard(events).buf.len() <= MAX_UI_LINE_BYTES,
        forall|k: int|
            0 <= k < heard(events).buf.len() ==> #[trigger] heard(events).buf[k] != 10u8,
    decreases events.len(),
{
    if events.len() == 0 {
        let whole = Seq::<u8>::empty();
        whole.index_of_first_ensures(10u8);
        assert(bytes_read(events) =~= whole + heard(events).buf);
        return whole;
    }
    let before = events.drop_last();
    let h = heard(before);
    let chunk = events.last().bytes();
    let whole = lemma_heard(before);
    let line = h.buf + chunk;
    assert(bytes_read(events) =~= whole + line);
    if chunk.len() > 0 && chunk.last() == 10u8 {
        assert(events.last() is Read);
        let n = line.len() - 1;
        assert(line[n] == 10u8);
        assert forall|k: int| 0 <= k < n implies line[k] != 10u8 by {
            if k < h.buf.len() {
                assert(h.buf[k] != 10u8);
            } else {
                assert(chunk[k - h.buf.len()] != 10u8);
            }
        }
        lemma_first_line(line, n);
        assert(line.skip(n + 1) =~= Seq::<u8>::empty());
        assert(line.take(n + 1) =~= line);
        assert(whole_lines(line.skip(n + 1)));
        assert(whole_lines(line));
        assert(lines_sent(line.skip(n + 1)) =~= Seq::<Seq<char>>::empty()) by {
            line.skip(n + 1).index_of_first_ensures(10u8);
        }
        lemma_lines_after(whole, line);
        assert(line.last() == 10u8);
        match line_told(line) {
            HeardStep::Line(text) => {
                assert(lines_sent(line) =~= seq![text]);
                assert(lines_sent(whole) + seq![text] =~= lines_sent(whole).push(text));
            },
            _ => {
                assert(lines_sent(whole) + lines_sent(line) =~= lines_sent(whole));
            },
        }
        assert(whole + line =~= (whole + line) + heard(events).buf);
        whole + line
    } else {
        assert(chunk.len() > 0 ==> line.last() == chunk.last());
        assert(heard(events).buf == line);
        assert forall|k: int| 0 <= k < line.len() implies #[trigger] line[k] != 10u8 by {
            if k < h.buf.len() {
                assert(h.buf[k] != 10u8);
            } else if k < line.len() - 1 {
                assert(chunk[k - h.buf.len()] != 10u8);
            }
        }
        whole
    }
}

/// Of all that a client sends, each line that can be decoded is heard once and in order, and
/// nothing is heard after a line that is too long. What a client sends is what was read of it
/// and, where a line was too long, what was never read.
pub proof fn each_line_is_heard_once_and_in_order(events: Seq<ReadEvent>, unread: Seq<u8>)
    requires
        proper_reads(events),
        unread.len() > 0 ==> heard(events).buf.len() == MAX_UI_LINE_BYTES,
    ensures
        heard(events).lines == lines_sent(bytes_read(events) + unread),
{
    let whole = lemma_heard(events);
    let buf = heard(events).buf;
    lemma_no_line(buf, unread);
    lemma_lines_after(whole, buf + unread);
    assert(bytes_read(events) + unread =~= whole + (buf + unread));
    assert(lines_sent(whole) + lines_sent(buf + unread) =~= lines_sent(whole));
}

/// Nothing is heard any more once the session is not active, whatever else is read.
pub proof fn nothing_is_heard_after_the_session(
    before: Seq<ReadEvent>,
    chunk: Seq<u8>,
    more: Seq<ReadEvent>,
)
    ensures
        heard(before.push(ReadEvent::Read(chunk, false)) + more).lines == heard(before).lines,
    decreases more.len(),
{
    let cut = before.push(ReadEvent::Read(chunk, false));
    if more.len() == 0 {
        assert(cut + more =~= cut);
        assert(cut.drop_last() =~= before);
    } else {
        nothing_is_heard_after_the_session(before, chunk, more.drop_last());
        lemma_closed_stays(before, chunk, more.drop_last());
        assert((cut + more).drop_last() =~= cut + more.drop_last());
    }
}

proof fn lemma_closed_stays(before: Seq<ReadEvent>, chunk: Seq<u8>, more: Seq<ReadEvent>)
    ensures
        !heard(before.push(ReadEvent::Read(chunk, false)) + more).open,
    decreases more.len(),
{
    let cut = before.push(ReadEvent::Read(chunk, false));
    if more.len() == 0 {
        assert(cut + more =~= cut);
        assert(cut.drop_last() =~= before);
    } else {
        lemma_closed_stays(before, chunk, more.drop_last());
        assert((cut + more).drop_last() =~= cut + more.drop_last());
    }
}

/// What woke the side of a connection that writes.
pub enum WriterEvent {
    /// The session's state changed, or can no longer be told.
    Session(bool),
    /// There is a new status, and its line if it has one.
    Status(Option<Vec<u8>>),
    /// There is an answer to a command, and its line if it has one.
    Answer(Option<Vec<u8>>),
    /// Some answers were missed.
    Lagged,
    /// No status or answer will come any more.
    Closed,
}

/// What the side of a connection that writes does next.
pub enum WriterStep {
    Wait,
    Write(Vec<u8>),
    End,
}

/// What the side of a connection that writes does next. The session is asked for again
/// before every line, so that one that is no longer active gets nothing more; a line that
/// cannot be made ends the connection.
pub fn writer_step(event: WriterEvent, session_active: bool) -> (r: WriterStep)
    ensures
        match event {
            WriterEvent::Session(known) => if known && session_active {
                r is Wait
            } else {
                r is End
            },
            WriterEvent::Status(line) => if session_active && line is Some {
                r == WriterStep::Write(line->0)
            } else {
                r is End
            },
            WriterEvent::Answer(line) => if session_active && line is Some {
                r == WriterStep::Write(line->0)
            } else {
                r is End
            },
            WriterEvent::Lagged => if session_active {
                r is Wait
            } else {
                r is End
            },
            WriterEvent::Closed => r is End,
        },
        r is Write ==> session_active,
{
    match event {
        WriterEvent::Session(known) => {
            if known && session_active {
                WriterStep::Wait
            } else {
                WriterStep::End
            }
        },
        WriterEvent::Status(line) => match line {
            Some(bytes) => {
                if session_active {
                    WriterStep::Write(bytes)
                } else {
                    WriterStep::End
                }
            },
            None => WriterStep::End,
        },
        WriterEvent::Answer(line) => match line {
            Some(bytes) => {
                if session_active {
                    WriterStep::Write(bytes)
                } else {
                    WriterStep::End
                }
            },
            None => WriterStep::End,
        },
        WriterEvent::Lagged => {
            if session_active {
                WriterStep::Wait
            } else {
                WriterStep::End
            }
        },
        WriterEvent::Closed => WriterStep::End,
    }
}

/// Whether a status is the one of a service that has nothing to say yet.
pub open spec fn starting(who: ServiceIdentity, r: StatusPayload) -> bool {
    &&& who.capabilities.same_as(&r.capabilities)
    &&& r.status@ == "Starting"@
    &&& exists|blank: StatusPayload| #[trigger]
        blank.is_blank() && r == (StatusPayload {
            protocol_version: who.protocol_version,
            capabilities: r.capabilities,
            status: r.status,
            ..blank
        })
}

/// What a client is shown before the service has anything to say.
pub fn initial_status(who: &ServiceIdentity) -> (r: StatusPayload)
    ensures
        starting(*who, r),
{
    let blank = StatusPayload::default();
    let ghost empty = blank;
    let mut status = blank;
    status.protocol_version = who.protocol_version;
    status.capabilities = who.capabilities.copied();
    status.status = "Starting".to_owned();
    assert(empty.is_blank());
    status
}

/// Whether a connection stays once a line was dealt with: a request that could be read has
/// to reach the service while the session is active; any other line is passed over.
pub fn stays_connected(read: bool, forwarded: bool, session_active: bool) -> (r: bool)
    ensures
        r == (!read || (forwarded && session_active)),
{
    !read || (forwarded && session_active)
}

/// How many clients are connected.
pub struct ClientCount {
    pub clients: usize,
}

impl ClientCount {
    /// A client has connected.
    pub fn connect(&mut self)
        requires
            old(self).clients < usize::MAX,
        ensures
            final(self).clients == old(self).clients + 1,
    {
        self.clients = self.clients + 1;
    }

    /// A client has gone.
    pub fn disconnect(&mut self)
        ensures
            final(self).clients == (if old(self).clients == 0 {
                0
            } else {
                old(self).clients - 1
            }),
    {
        if self.clients > 0 {
            self.clients = self.clients - 1;
        }
    }

    /// Whether anyone is connected.
    pub fn ui_connected(&self) -> (r: bool)
        ensures
            r == (self.clients > 0),
    {
        self.clients > 0
    }
}

/// The answer to a command, where the client asked for one by a number.
pub fn result_envelope(request_id: Option<u64>, result: Result<String, String>) -> (r: Option<
    CommandResult,
>)
    ensures
        match (request_id, r) {
            (Some(id), Some(answer)) => {
                &&& answer.request_id == id
                &&& answer.ok == (result is Ok)
                &&& answer.message == (match result {
                    Ok(message) => message,
                    Err(message) => message,
                })
            },
            (None, None) => true,
            _ => false,
        },
{
    match request_id {
        Some(id) => Some(
            match result {
                Ok(message) => CommandResult { request_id: id, ok: true, message },
                Err(message) => CommandResult { request_id: id, ok: false, message },
            },
        ),
        None => None,
    }
}

// ── Who may connect ───────────────────────────────────────────────────────────

/// Whether a number is one of some.
pub open spec fn among(list: Seq<u32>, id: u32) -> bool {
    exists|i: int| 0 <= i < list.len() && #[trigger] list[i] == id
}

fn is_among(list: &[u32], id: u32) -> (r: bool)
    ensures
        r == among(list@, id),
{
    let mut i: usize = 0;
    while i < list.len()
        invariant
            i <= list@.len(),
            forall|k: int| 0 <= k < i ==> #[trigger] list@[k] != id,
        decreases list@.len() - i,
    {
        if list[i] == id {
            return true;
        }
        i += 1;
    }
    false
}

/// Whether a peer of the socket may use it: the superuser, and the listed users and groups.
pub fn peer_allowed(uid: u32, gid: u32, allow_uids: &[u32], allow_gids: &[u32]) -> (r: bool)
    ensures
        r == (uid == 0 || among(allow_uids@, uid) || among(allow_gids@, gid)),
{
    uid == 0 || is_among(allow_uids, uid) || is_among(allow_gids, gid)
}

/// Whether a connection to the socket is taken: its peer is known and may use it.
pub fn takes_connection(peer: Option<(u32, u32)>, allow_uids: &[u32], allow_gids: &[u32]) -> (r: bool)
    ensures
        r == (match peer {
            Some((uid, gid)) => uid == 0 || among(allow_uids@, uid) || among(allow_gids@, gid),
            None => false,
        }),
{
    match peer {
        Some((uid, gid)) => peer_allowed(uid, gid, allow_uids, allow_gids),
        None => false,
    }
}

/// What the configuration says of the socket.
pub struct SocketConfig {
    pub socket_path: String,
    pub socket_allow_uids: Vec<u32>,
    pub socket_allow_gids: Vec<u32>,
}

/// Where the socket stands and who may use it. A blank path is the usual one; without a
/// configuration nobody but the superuser may use it.
pub fn configured_socket(config: Option<SocketConfig>) -> (r: (String, Vec<u32>, Vec<u32>))
    ensures
        match config {
            Some(c) => {
                &&& r.0@ == (if trim(c.socket_path@).len() == 0 {
                    DEFAULT_SOCKET_PATH@
                } else {
                    c.socket_path@
                })
                &&& r.1 == c.socket_allow_uids
                &&& r.2 == c.socket_allow_gids
            },
            None => r.0@ == DEFAULT_SOCKET_PATH@ && r.1@.len() == 0 && r.2@.len() == 0,
        },
{
    match config {
        Some(c) => {
            let body = trimmed(c.socket_path.as_str());
            let path = if body.as_str().is_empty() {
                DEFAULT_SOCKET_PATH.to_owned()
            } else {
                c.socket_path
            };
            (path, c.socket_allow_uids, c.socket_allow_gids)
        },
        None => (DEFAULT_SOCKET_PATH.to_owned(), Vec::new(), Vec::new()),
    }
}

/// What a trial connection to the socket's path came to.
#[derive(Debug, Clone, Copy, PartialEq, Eq, Structural)]
pub enum TrialConnect {
    Connected,
    Refused,
    NotFound,
    OtherError,
}

/// What to do about the socket's path.
#[derive(Debug, Clone, Copy, PartialEq, Eq, Structural)]
pub enum BindStep {
    /// A live service owns it: leave it alone.
    InUse,
    /// A service that is gone left it: remove it and bind.
    RemoveAndBind,
    /// Report the error of the trial.
    Fail,
}

/// What to do about the socket's path. Only a path that nobody answers at is taken over.
pub fn bind_socket(trial: TrialConnect) -> (r: BindStep)
    ensures
        r == (match trial {
            TrialConnect::Connected => BindStep::InUse,
            TrialConnect::Refused => BindStep::RemoveAndBind,
            TrialConnect::NotFound => BindStep::RemoveAndBind,
            TrialConnect::OtherError => BindStep::Fail,
        }),
{
    match trial {
        TrialConnect::Connected => BindStep::InUse,
        TrialConnect::Refused => BindStep::RemoveAndBind,
        TrialConnect::NotFound => BindStep::RemoveAndBind,
        TrialConnect::OtherError => BindStep::Fail,
    }
}

/// Whether a client's session is the one active session.
pub fn client_session_matches_active(client_session: u32, active_session: Option<u32>) -> (r: bool)
    ensures
        r == (client_session != u32::MAX && active_session == Some(client_session)),
{
    match active_session {
        Some(active) => client_session != u32::MAX && active == client_session,
        None => false,
    }
}

/// Whether a client may use the pipe: from the active session, and elevated or the
/// installed user interface.
pub fn client_identity_evidence_allowed(
    session_active: bool,
    elevated_admin: bool,
    installed_ui_path: bool,
) -> (r: bool)
    ensures
        r == (session_active && (elevated_admin || installed_ui_path)),
{
    session_active && (elevated_admin || installed_ui_path)
}

/// Whether two paths are the same text in any ASCII case.
pub fn windows_path_eq(left: &str, right: &str) -> (r: bool)
    ensures
        r == same_ignoring_ascii_case(left@, right@),
{
    eq_ignore_ascii_case(left, right)
}

/// Whether two paths are known and the same in any ASCII case.
pub open spec fn same_known_path(a: Option<&str>, b: Option<&str>) -> bool {
    a is Some && b is Some && same_ignoring_ascii_case(a->0@, b->0@)
}

fn known_paths_match(a: Option<&str>, b: Option<&str>) -> (r: bool)
    ensures
        r == same_known_path(a, b),
{
    match (a, b) {
        (Some(x), Some(y)) => windows_path_eq(x, y),
        _ => false,
    }
}

/// The session of a client of the pipe that is taken: its process is known, it was verified,
/// and its session is the active one at that moment.
pub fn takes_client(process: Option<u32>, verified: Option<u32>, session_active: bool) -> (r: Option<
    u32,
>)
    ensures
        r == (if process is Some && session_active {
            verified
        } else {
            None
        }),
{
    match process {
        Some(_) => {
            if session_active {
                verified
            } else {
                None
            }
        },
        None => None,
    }
}

/// The session of a client of the pipe, if it may use it: `image` is its checked binary,
/// `installed` the installed user interface.
pub fn verified_client_session(
    session: Option<u32>,
    active_session: Option<u32>,
    elevated_admin: bool,
    image: Option<&str>,
    installed: Option<&str>,
) -> (r: Option<u32>)
    ensures
        r == (match session {
            Some(s) if s != u32::MAX && active_session == Some(s) && (elevated_admin
                || same_known_path(image, installed)) => Some(s),
            _ => None,
        }),
{
    match session {
        Some(s) => {
            let active = client_session_matches_active(s, active_session);
            if client_identity_evidence_allowed(active, elevated_admin, false) {
                return Some(s);
            }
            if client_identity_evidence_allowed(active, false, known_paths_match(image, installed)) {
                Some(s)
            } else {
                None
            }
        },
        None => None,
    }
}

/// The session of a client of a portable service's pipe, if it may use it: it runs as the
/// same user, and its binary is the one beside the service.
pub fn verified_portable_client_session(
    session: Option<u32>,
    same_user: bool,
    image: Option<&str>,
    expected: Option<&str>,
) -> (r: Option<u32>)
    ensures
        r == (if same_user && same_known_path(image, expected) {
            session
        } else {
            None
        }),
{
    if same_user && known_paths_match(image, expected) {
        session
    } else {
        None
    }
}

/// How a process's rights relate to its user's.
#[derive(Debug, Clone, Copy, PartialEq, Eq, Structural)]
pub enum ElevationType {
    Default,
    Full,
    Limited,
}

/// Whether a process may run the portable service: not as the system, and not elevated
/// apart from its user.
pub fn portable_token_identity_allowed(
    elevation_type: Option<ElevationType>,
    local_system: Option<bool>,
) -> (r: bool)
    ensures
        r == (local_system == Some(false) && (elevation_type == Some(ElevationType::Default)
            || elevation_type == Some(ElevationType::Limited))),
{
    let plain = match local_system {
        Some(system) => !system,
        None => false,
    };
    let whole = match elevation_type {
        Some(ElevationType::Default) => true,
        Some(ElevationType::Limited) => true,
        _ => false,
    };
    plain && whole
}

/// The root of the plain drive that a path starts on, as the system's calls take it: the
/// letter, a colon, a back slash and a zero.
pub open spec fn drive_units(path: Seq<char>) -> Option<Seq<u16>> {
    let comps = components(path);
    if comps.len() >= 2 && comps[1] is RootDir {
        match comps[0] {
            ComponentModel::Prefix(PrefixKind::Disk(letter), _) => Some(
                seq![letter as u16, 58u16, 92u16, 0u16],
            ),
            _ => None,
        }
    } else {
        None
    }
}

/// The root of the plain drive that a path starts on.
pub fn fixed_drive_root(path: &str) -> (r: Option<[u16; 4]>)
    ensures
        match r {
            Some(units) => drive_units(path@) == Some(units@),
            None => drive_units(path@) is None,
        },
{
    let comps = parse_components(path);
    let ghost p = component_views(comps@);
    if comps.len() < 2 {
        return None;
    }
    assert(p[0] == comps@[0]@ && p[1] == comps@[1]@);
    if !matches!(&comps[1], Component::RootDir) {
        return None;
    }
    match &comps[0] {
        Component::Prefix(kind, _) => match *kind {
            PrefixKind::Disk(letter) => {
                let root: [u16; 4] = [letter as u16, 58, 92, 0];
                assert(root@ =~= seq![letter as u16, 58u16, 92u16, 0u16]);
                Some(root)
            },
            _ => None,
        },
        _ => None,
    }
}

/// The interactive user's rights let a client read and write, and never pose as a server.
pub proof fn interactive_rights_are_a_clients()
    ensures
        INTERACTIVE_PIPE_ACCESS & 0x0004u32 == 0,
        INTERACTIVE_PIPE_ACCESS & 0x0001u32 != 0,
        INTERACTIVE_PIPE_ACCESS & 0x0002u32 != 0,
{
    assert(0x0012_008Bu32 & 0x0004u32 == 0) by (bit_vector);
    assert(0x0012_008Bu32 & 0x0001u32 != 0) by (bit_vector);
    assert(0x0012_008Bu32 & 0x0002u32 != 0) by (bit_vector);
}

// ── What a status and a line come to ──────────────────────────────────────────

/// A capped list is the start of the list, and all of it where it fits.
pub proof fn capped_list_is_the_start<A>(s: Seq<A>, cap: int)
    requires
        0 <= cap,
    ensures
        at_most(s, cap).is_prefix_of(s),
        s.len() <= cap ==> at_most(s, cap) == s,
        s.len() > cap ==> at_most(s, cap).len() == cap,
{
    if s.len() > cap {
        assert(s.take(cap).is_prefix_of(s));
    }
}

/// A status is sent with its first approvals, each with its number, its action and its words, and
/// with its readings at their times; only numbers that cannot be written down are changed.
pub proof fn status_is_sent_with_its_first_approvals(s: StatusPayload, r: StatusPayload, i: int)
    requires
        as_sent(s, r),
    ensures
        s.pending_approvals@.len() <= 32 ==> r.pending_approvals@.len()
            == s.pending_approvals@.len(),
        s.pending_approvals@.len() > 32 ==> r.pending_approvals@.len() == 32,
        0 <= i < r.pending_approvals@.len() ==> {
            let a = s.pending_approvals@[i];
            let b = r.pending_approvals@[i];
            &&& b == (ApprovalInfo { confidence: b.confidence, ..a })
            &&& finite(a.confidence) ==> b.confidence == a.confidence
        },
        s.learned_facts@.len() <= 512 ==> r.learned_facts@ == s.learned_facts@,
        s.learned_facts@.len() > 512 ==> r.learned_facts@ == s.learned_facts@.take(512),
        s.action_preferences@.len() <= 256 ==> r.action_preferences@ == s.action_preferences@,
        s.action_preferences@.len() > 256 ==> r.action_preferences@ == s.action_preferences@.take(
            256,
        ),
        r.history@.len() == s.history@.len(),
        0 <= i < s.history@.len() ==> r.history@[i].at == s.history@[i].at && (finite(
            s.history@[i].cpu,
        ) ==> r.history@[i].cpu == s.history@[i].cpu) && (finite(s.history@[i].memory)
            ==> r.history@[i].memory == s.history@[i].memory) && (finite(s.history@[i].disk)
            ==> r.history@[i].disk == s.history@[i].disk),
        r.recent_problems@.len() == s.recent_problems@.len(),
        0 <= i < s.recent_problems@.len() ==> {
            let a = s.recent_problems@[i];
            let b = r.recent_problems@[i];
            &&& b == (ProblemSummary { confidence: b.confidence, ..a })
            &&& finite(a.confidence) ==> b.confidence == a.confidence
        },
        finite(s.cpu) ==> r.cpu == s.cpu,
        finite(s.memory) ==> r.memory == s.memory,
        finite(s.disk) ==> r.disk == s.disk,
        r.status == s.status && r.paused == s.paused && r.error == s.error && r.failed_services
            == s.failed_services && r.last_analysis == s.last_analysis && r.recent_executions
            == s.recent_executions && r.ask == s.ask && r.disk_insights == s.disk_insights
            && r.startup == s.startup && r.digest == s.digest && r.gaming == s.gaming
            && r.signals_at == s.signals_at && r.signal_errors == s.signal_errors && r.svc_version
            == s.svc_version && r.capabilities == s.capabilities && r.protocol_version
            == s.protocol_version && r.last_analysis_at == s.last_analysis_at,
{
}

/// Costs, settings, the updater and the advisor are sent as they are but for numbers that cannot
/// be written down, and none is left out.
pub proof fn parts_of_a_status_are_sent(s: StatusPayload, r: StatusPayload)
    requires
        as_sent(s, r),
    ensures
        r.usage is Some <==> s.usage is Some,
        s.usage matches Some(u) ==> r.usage->0.rest == u.rest && (finite_amount(u.cost_today_usd)
            ==> r.usage->0.cost_today_usd == u.cost_today_usd) && (finite_amount(u.cost_week_usd)
            ==> r.usage->0.cost_week_usd == u.cost_week_usd),
        r.settings is Some <==> s.settings is Some,
        s.settings matches Some(u) ==> r.settings->0.rest == u.rest && (finite(
            u.confidence_threshold,
        ) ==> r.settings->0.confidence_threshold == u.confidence_threshold),
        r.updater is Some <==> s.updater is Some,
        s.updater matches Some(u) ==> r.updater->0 == (UpdaterStatus {
            last_cost_usd: r.updater->0.last_cost_usd,
            ..u
        }) && (finite_amount(u.last_cost_usd) ==> r.updater->0.last_cost_usd == u.last_cost_usd),
        r.advisor is Some <==> s.advisor is Some,
        s.advisor matches Some(a) ==> {
            let b = r.advisor->0;
            &&& b == (AdvisorStatus {
                spent_today_usd: b.spent_today_usd,
                settings: b.settings,
                ..a
            })
            &&& finite_amount(a.spent_today_usd) ==> b.spent_today_usd == a.spent_today_usd
            &&& b.settings.rest == a.settings.rest
            &&& finite(a.settings.low_confidence_threshold)
                ==> b.settings.low_confidence_threshold == a.settings.low_confidence_threshold
        },
{
}

/// Where the details of a status are left out, the machine's load, the pause, the game and the
/// times stay, each approval stays with its number and its action, and an error says so.
pub proof fn recovery_keeps_what_has_to_be_decided(
    s: StatusPayload,
    who: ServiceIdentity,
    approvals: Seq<ApprovalInfo>,
    r: StatusPayload,
    i: int,
)
    requires
        without_details(s, who, approvals, r),
    ensures
        r.cpu == s.cpu && r.memory == s.memory && r.disk == s.disk && r.paused == s.paused
            && r.gaming == s.gaming && r.last_analysis_at == s.last_analysis_at && r.signals_at
            == s.signals_at && r.protocol_version == s.protocol_version,
        r.status@ == "Error"@,
        opt_view(r.error) == Some(OVERSIZED_STATUS@),
        r.pending_approvals@.len() == approvals.len(),
        0 <= i < approvals.len() ==> r.pending_approvals@[i].id == approvals[i].id
            && r.pending_approvals@[i].action@ == approvals[i].action@
            && r.pending_approvals@[i].target@ == approvals[i].target@,
        r.recent_problems@.len() == 0 && r.recent_executions@.len() == 0 && r.history@.len() == 0
            && r.learned_facts@.len() == 0 && r.action_preferences@.len() == 0 && r.usage is None
            && r.ask is None && r.disk_insights is None && r.startup is None,
        opt_view(r.svc_version) == Some(who.version@),
{
    if 0 <= i < approvals.len() {
        assert(approvals[i].same_as(&r.pending_approvals@[i]));
    }
}

/// A line that is text is heard without the white space around it; one that is blank or no text is
/// passed over, and never ends the connection.
pub proof fn line_is_heard_without_its_white_space(bytes: Seq<u8>)
    ensures
        !valid_utf8(bytes) ==> line_told(bytes) is Skip,
        valid_utf8(bytes) && trim(decode_utf8(bytes)).len() == 0 ==> line_told(bytes) is Skip,
        valid_utf8(bytes) && trim(decode_utf8(bytes)).len() > 0 ==> line_told(bytes)
            == HeardStep::Line(trim(decode_utf8(bytes))),
        bytes.len() > 0 && bytes.last() == 10u8 ==> line_step(bytes, 1, true) == line_told(bytes),
        line_step(bytes, 0, true) is Disconnect,
        bytes.len() > 0 && bytes.last() != 10u8 ==> line_step(bytes, 1, true) is Disconnect,
{
}

/// The lines of what a client sends come one after the other: the first that has ended, unless it
/// is passed over, and then those of the rest.
pub proof fn lines_come_one_after_the_other(line: Seq<u8>, rest: Seq<u8>)
    requires
        forall|i: int| 0 <= i < line.len() ==> line[i] != 10u8,
        line.len() < 12 * 1024 * 1024,
    ensures
        ({
            let sent = line.push(10u8) + rest;
            match line_told(line.push(10u8)) {
                HeardStep::Line(text) => lines_sent(sent) == seq![text] + lines_sent(rest),
                _ => lines_sent(sent) == lines_sent(rest),
            }
        }),
        lines_sent(line).len() == 0,
{
    let sent = line.push(10u8) + rest;
    let n = line.len() as int;
    assert(sent[n] == 10u8);
    lemma_first_line(sent, n);
    assert(sent.skip(n + 1) =~= rest);
    assert(sent.take(n + 1) =~= line.push(10u8));
    line.index_of_first_ensures(10u8);
}

/// The bytes of reads follow each other.
pub proof fn bytes_of_reads_follow_each_other(events: Seq<ReadEvent>, chunk: Seq<u8>, active: bool)
    ensures
        bytes_read(Seq::empty()) == Seq::<u8>::empty(),
        bytes_read(events.push(ReadEvent::Held(chunk))) == bytes_read(events) + chunk,
        bytes_read(events.push(ReadEvent::Read(chunk, active))) == bytes_read(events) + chunk,
{
    assert(events.push(ReadEvent::Held(chunk)).drop_last() =~= events);
    assert(events.push(ReadEvent::Read(chunk, active)).drop_last() =~= events);
}

/// A number is one of some where it stands among them.
pub proof fn listed_numbers_are_found(list: Seq<u32>, id: u32)
    ensures
        among(list, id) <==> list.contains(id),
{
    if list.contains(id) {
        let i = choose|i: int| 0 <= i < list.len() && list[i] == id;
        assert(list[i] == id);
    }
}

/// A service that has nothing to say yet says that it starts, what it speaks and what it can do,
/// and nothing else.
pub proof fn starting_service_says_so(who: ServiceIdentity, r: StatusPayload)
    requires
        starting(who, r),
    ensures
        r.status@ == "Starting"@,
        r.protocol_version == who.protocol_version,
        who.capabilities.same_as(&r.capabilities),
        !r.paused && !r.gaming && r.error is None && r.pending_approvals@.len() == 0
            && r.recent_problems@.len() == 0 && r.last_analysis@.len() == 0 && r.last_analysis_at
            == 0 && r.usage is None && r.updater is None && r.advisor is None && r.svc_version is None,
{
}

/// The root of a drive is its letter, a colon, a back slash and a zero; a share has none, nor has a
/// path that does not start at a root.
pub proof fn drive_root_is_told_by_its_letter(c: char, body: Seq<char>)
    requires
        'A' <= c <= 'Z',
        body.len() > 0 ==> body[0] != '\\' && body[0] != '/',
    ensures
        drive_units(seq![c, ':', '\\'] + body) == Some(seq![c as u16, 0x3au16, 0x5cu16, 0u16]),
        path_prefix(body) is None ==> drive_units(body) is None,
{
    path_on_a_drive_has_its_names(c, body);
    if path_prefix(body) is None {
        plain_path_has_its_names(body);
        pieces_are_names(split_on(body, |x: char| separates(x, false)), false);
        pieces_are_names(split_on(body.skip(1), |x: char| separates(x, false)), false);
    }
}

// ── What the operations do ────────────────────────────────────────────────────

/// A message is sent with a line feed behind it, and not at all where that does not fit.
pub proof fn message_is_sent_as_one_line(message: &Vec<u8>, r: Option<Vec<u8>>)
    requires
        call_ensures(service_line, (message,), r),
    ensures
        r is Some <==> message@.len() < 12 * 1024 * 1024,
        r matches Some(line) ==> line@ == message@.push(0x0au8),
{
}

/// Bytes are added to a line where they fit, and none of them where they do not.
pub proof fn line_grows_within_its_cap(line: &mut CappedJsonLine, buf: &[u8], r: bool)
    requires
        call_ensures(CappedJsonLine::write, (line, buf), r),
    ensures
        r <==> old(line).bytes@.len() + buf@.len() <= old(line).max_bytes,
        r ==> final(line).bytes@ == old(line).bytes@ + buf@,
        !r ==> final(line).bytes@ == old(line).bytes@ && final(line).overflowed,
        old(line).overflowed ==> final(line).overflowed,
{
}

/// What is read follows what is held; once a line has ended the next one starts with nothing, and
/// a read of nothing, a line without its end or a session that is not active ends the connection.
pub proof fn line_is_taken_once_it_has_ended(
    reader: &mut LineReader,
    chunk: &Vec<u8>,
    active: bool,
    r: LineStep,
)
    requires
        call_ensures(LineReader::take, (reader, chunk, active), r),
    ensures
        ({
            let all = old(reader).buf@ + chunk@;
            &&& !active || chunk@.len() == 0 || all.last() != 0x0au8 ==> r is Disconnect
            &&& active && chunk@.len() > 0 && all.last() == 0x0au8 ==> !(r is Disconnect) && final(reader).buf@.len() == 0
            &&& r matches LineStep::Line(text) ==> valid_utf8(all) && text@ == trim(decode_utf8(all))
                && text@.len() > 0
        }),
{
}

/// What is held stays before what comes.
pub proof fn held_bytes_stay(reader: &mut LineReader, chunk: &Vec<u8>)
    requires
        call_ensures(LineReader::hold, (reader, chunk), ()),
    ensures
        final(reader).buf@ == old(reader).buf@ + chunk@,
{
}

/// Nothing is written to a session that is not active, and what is written is the line that there
/// is.
pub proof fn only_an_active_session_is_written_to(
    event: WriterEvent,
    active: bool,
    r: WriterStep,
)
    requires
        call_ensures(writer_step, (event, active), r),
    ensures
        !active ==> r is End,
        active ==> (event matches WriterEvent::Status(line) ==> (line is Some ==> r
            == WriterStep::Write(line->0)) && (line is None ==> r is End)),
        active ==> (event matches WriterEvent::Answer(line) ==> (line is Some ==> r
            == WriterStep::Write(line->0)) && (line is None ==> r is End)),
        active && event is Lagged ==> r is Wait,
        event is Closed ==> r is End,
        event matches WriterEvent::Session(known) ==> (known && active ==> r is Wait) && (!known
            ==> r is End),
{
}

/// A connection stays unless a request that could be read did not reach the service, or the
/// session is no longer active.
pub proof fn connection_stays_while_requests_arrive(
    read: bool,
    forwarded: bool,
    active: bool,
    r: bool,
)
    requires
        call_ensures(stays_connected, (read, forwarded, active), r),
    ensures
        !read ==> r,
        read ==> (r <==> forwarded && active),
{
}

/// Clients are counted: one that connects and goes leaves the count as it was, and someone is
/// connected exactly while the count is above zero.
pub proof fn clients_are_counted(count: &mut ClientCount, gone: &mut ClientCount, some: bool)
    requires
        call_ensures(ClientCount::connect, (count,), ()),
        call_ensures(ClientCount::disconnect, (gone,), ()),
        *old(gone) == *final(count),
        call_ensures(ClientCount::ui_connected, (&*final(count),), some),
    ensures
        final(gone).clients == old(count).clients,
        some,
{
}

/// A command is answered where it asked for that, under its number, with how it went.
pub proof fn command_is_answered_under_its_number(
    id: Option<u64>,
    result: Result<String, String>,
    r: Option<CommandResult>,
)
    requires
        call_ensures(result_envelope, (id, result), r),
    ensures
        r is Some <==> id is Some,
        r matches Some(answer) ==> Some(answer.request_id) == id && answer.ok == (result is Ok) && (
        result is Ok ==> answer.message == result->Ok_0) && (result is Err ==> answer.message
            == result->Err_0),
{
}

/// A peer may use the socket where it is the superuser or is listed, by itself or by its group.
pub proof fn only_listed_peers_are_taken(
    uid: u32,
    gid: u32,
    uids: &[u32],
    gids: &[u32],
    allowed: bool,
    taken: bool,
    unknown: bool,
)
    requires
        call_ensures(peer_allowed, (uid, gid, uids, gids), allowed),
        call_ensures(takes_connection, (Some((uid, gid)), uids, gids), taken),
        call_ensures(takes_connection, (None, uids, gids), unknown),
    ensures
        allowed <==> uid == 0 || uids@.contains(uid) || gids@.contains(gid),
        taken == allowed,
        !unknown,
{
    listed_numbers_are_found(uids@, uid);
    listed_numbers_are_found(gids@, gid);
}

/// The socket stands where it is configured to stand, or at the usual place, and is open to those
/// who are listed; without a configuration to nobody else.
pub proof fn socket_is_as_configured(
    config: Option<SocketConfig>,
    r: (String, Vec<u32>, Vec<u32>),
)
    requires
        call_ensures(configured_socket, (config,), r),
    ensures
        config is None ==> r.0@ == "/run/eir/eir.sock"@ && r.1@.len() == 0 && r.2@.len() == 0,
        config matches Some(c) ==> r.1 == c.socket_allow_uids && r.2 == c.socket_allow_gids && (trim(
            c.socket_path@,
        ).len() > 0 ==> r.0@ == c.socket_path@) && (trim(c.socket_path@).len() == 0 ==> r.0@
            == "/run/eir/eir.sock"@),
{
}

/// A socket that someone answers at is left alone; only one that nobody answers at is taken over.
pub proof fn live_socket_is_left_alone(trial: TrialConnect, r: BindStep)
    requires
        call_ensures(bind_socket, (trial,), r),
    ensures
        r is InUse <==> trial is Connected,
        r is RemoveAndBind <==> trial is Refused || trial is NotFound,
        r is Fail <==> trial is OtherError,
{
}

/// A client is in the active session where its session is known and is that one.
pub proof fn client_is_in_the_active_session(client: u32, active: Option<u32>, r: bool)
    requires
        call_ensures(client_session_matches_active, (client, active), r),
    ensures
        r <==> client != 0xffff_ffff && active == Some(client),
{
}

/// A client may use the pipe from the active session alone, and there only where it is elevated or
/// the installed user interface.
pub proof fn evidence_is_needed_of_a_client(
    active: bool,
    elevated: bool,
    installed: bool,
    r: bool,
)
    requires
        call_ensures(client_identity_evidence_allowed, (active, elevated, installed), r),
    ensures
        !active ==> !r,
        !elevated && !installed ==> !r,
        active && (elevated || installed) ==> r,
{
}

/// The session of a client is taken where it is the active one, and the client is elevated or its
/// binary the installed one in any ASCII case.
pub proof fn verified_client_is_in_the_active_session(
    session: Option<u32>,
    active: Option<u32>,
    elevated: bool,
    image: Option<&str>,
    installed: Option<&str>,
    r: Option<u32>,
)
    requires
        call_ensures(verified_client_session, (session, active, elevated, image, installed), r),
    ensures
        r is Some ==> r == session && r == active && r != Some(0xffff_ffffu32) && (elevated || (
        image is Some && installed is Some && same_ignoring_ascii_case(image->0@, installed->0@))),
        session is Some && session == active && session != Some(0xffff_ffffu32) && elevated
            ==> r == session,
        session is Some && session == active && session != Some(0xffff_ffffu32) && image is Some
            && installed is Some && same_ignoring_ascii_case(image->0@, installed->0@) ==> r
            == session,
{
}

/// A client of a portable service runs as the same user, from the binary beside the service.
pub proof fn portable_client_is_the_same_user(
    session: Option<u32>,
    same_user: bool,
    image: Option<&str>,
    expected: Option<&str>,
    r: Option<u32>,
)
    requires
        call_ensures(verified_portable_client_session, (session, same_user, image, expected), r),
    ensures
        !same_user || image is None || expected is None ==> r is None,
        image is Some && expected is Some && !same_ignoring_ascii_case(image->0@, expected->0@)
            ==> r is None,
        same_user && image is Some && expected is Some && same_ignoring_ascii_case(
            image->0@,
            expected->0@,
        ) ==> r == session,
{
}

/// A client is taken where its process is known, it was verified, and its session is active.
pub proof fn unknown_client_is_not_taken(
    process: Option<u32>,
    verified: Option<u32>,
    active: bool,
    r: Option<u32>,
)
    requires
        call_ensures(takes_client, (process, verified, active), r),
    ensures
        process is None || !active || verified is None ==> r is None,
        process is Some && active ==> r == verified,
{
}

/// The portable service runs neither as the system nor elevated apart from its user, nor where
/// either cannot be told.
pub proof fn portable_service_is_not_elevated(
    elevation: Option<ElevationType>,
    local_system: Option<bool>,
    r: bool,
)
    requires
        call_ensures(portable_token_identity_allowed, (elevation, local_system), r),
    ensures
        local_system != Some(false) ==> !r,
        elevation is None || elevation == Some(ElevationType::Full) ==> !r,
        local_system == Some(false) && (elevation == Some(ElevationType::Default) || elevation
            == Some(ElevationType::Limited)) ==> r,
{
}

/// Of a status all is sent where it fits, else what has to be decided, else the least.
pub proof fn most_that_fits_is_sent(
    full: Option<Vec<u8>>,
    recovery: Option<Vec<u8>>,
    minimal: Option<Vec<u8>>,
    r: Option<Vec<u8>>,
)
    requires
        call_ensures(status_line, (full, recovery, minimal), r),
    ensures
        full is Some ==> r == full,
        full is None && recovery is Some ==> r == recovery,
        full is None && recovery is None ==> r == minimal,
{
}

/// The candidates for a status are all of it, its first eight approvals without its details, and
/// neither.
pub proof fn candidates_shrink_step_by_step(
    status: StatusPayload,
    who: &ServiceIdentity,
    r: StatusCandidates,
)
    requires
        call_ensures(status_candidates, (status, who), r),
    ensures
        as_sent(status, r.full),
        r.full.pending_approvals@.len() <= 8 ==> r.recovery.pending_approvals@.len()
            == r.full.pending_approvals@.len(),
        r.full.pending_approvals@.len() > 8 ==> r.recovery.pending_approvals@.len() == 8,
        r.minimal.pending_approvals@.len() == 0,
        r.recovery.status@ == "Error"@ && r.minimal.status@ == "Error"@,
{
}

/// A line whose room is full before it has ended ends the connection; one that still has room is
/// waited for.
pub proof fn full_line_ends_the_connection(h: Heard, chunk: Seq<u8>)
    requires
        h.open,
    ensures
        h.buf.len() + chunk.len() >= 12 * 1024 * 1024 ==> !heard_more(
            h,
            ReadEvent::Held(chunk),
        ).open,
        h.buf.len() + chunk.len() < 12 * 1024 * 1024 ==> heard_more(h, ReadEvent::Held(chunk))
            == (Heard { buf: h.buf + chunk, ..h }),
{
}

} // verus!
