//! What the service and the user interface say to each other.

use crate::copied::Copied;
use crate::metric::{Amount, Metric};
use crate::models::{FixAction, NetworkInterface, SystemState};
use crate::prefs::ActionPreferenceView;
use crate::text::{opt_view, views};
use vstd::prelude::*;
use vstd::string::*;

verus! {

/// Which service this is: what it speaks, what it can do, and its version.
#[derive(Debug)]
pub struct ServiceIdentity {
    pub protocol_version: u32,
    pub capabilities: Vec<String>,
    pub version: String,
}

/// A proposed fix that awaits the user's decision, as it is shown.
#[derive(Debug)]
pub struct ApprovalInfo {
    pub id: u64,
    pub diagnosis: String,
    pub root_cause: String,
    pub confidence: Metric,
    pub action: String,
    pub reason: String,
    pub side_effects: String,
    pub undo_instructions: String,
    pub action_summary: String,
    pub target: String,
    pub target_details: String,
    pub reversible: bool,
    pub created_at: i64,
}

impl Copied for ApprovalInfo {
    open spec fn same_as(&self, other: &Self) -> bool {
        &&& self.id.same_as(&other.id)
        &&& self.diagnosis.same_as(&other.diagnosis)
        &&& self.root_cause.same_as(&other.root_cause)
        &&& self.confidence.same_as(&other.confidence)
        &&& self.action.same_as(&other.action)
        &&& self.reason.same_as(&other.reason)
        &&& self.side_effects.same_as(&other.side_effects)
        &&& self.undo_instructions.same_as(&other.undo_instructions)
        &&& self.action_summary.same_as(&other.action_summary)
        &&& self.target.same_as(&other.target)
        &&& self.target_details.same_as(&other.target_details)
        &&& self.reversible.same_as(&other.reversible)
        &&& self.created_at.same_as(&other.created_at)
    }

    fn copied(&self) -> (r: Self) {
        ApprovalInfo {
            id: self.id.copied(),
            diagnosis: self.diagnosis.copied(),
            root_cause: self.root_cause.copied(),
            confidence: self.confidence.copied(),
            action: self.action.copied(),
            reason: self.reason.copied(),
            side_effects: self.side_effects.copied(),
            undo_instructions: self.undo_instructions.copied(),
            action_summary: self.action_summary.copied(),
            target: self.target.copied(),
            target_details: self.target_details.copied(),
            reversible: self.reversible.copied(),
            created_at: self.created_at.copied(),
        }
    }
}

/// A problem that was looked at, and what became of it.
#[derive(Debug)]
pub struct ProblemSummary {
    pub diagnosis: String,
    pub confidence: Metric,
    pub action: String,
    pub blocked: bool,
    pub auto_executed: bool,
    pub reason: Option<String>,
    pub at: i64,
}

impl Copied for ProblemSummary {
    open spec fn same_as(&self, other: &Self) -> bool {
        &&& self.diagnosis.same_as(&other.diagnosis)
        &&& self.confidence.same_as(&other.confidence)
        &&& self.action.same_as(&other.action)
        &&& self.blocked.same_as(&other.blocked)
        &&& self.auto_executed.same_as(&other.auto_executed)
        &&& self.reason.same_as(&other.reason)
        &&& self.at.same_as(&other.at)
    }

    fn copied(&self) -> (r: Self) {
        ProblemSummary {
            diagnosis: self.diagnosis.copied(),
            confidence: self.confidence.copied(),
            action: self.action.copied(),
            blocked: self.blocked.copied(),
            auto_executed: self.auto_executed.copied(),
            reason: self.reason.copied(),
            at: self.at.copied(),
        }
    }
}

/// An action that ran.
#[derive(Debug)]
pub struct ExecutionSummary {
    pub action: String,
    pub success: bool,
    pub preview: String,
    pub at: i64,
    pub undo_id: Option<i64>,
}

impl Copied for ExecutionSummary {
    open spec fn same_as(&self, other: &Self) -> bool {
        &&& self.action.same_as(&other.action)
        &&& self.success.same_as(&other.success)
        &&& self.preview.same_as(&other.preview)
        &&& self.at.same_as(&other.at)
        &&& self.undo_id.same_as(&other.undo_id)
    }

    fn copied(&self) -> (r: Self) {
        ExecutionSummary {
            action: self.action.copied(),
            success: self.success.copied(),
            preview: self.preview.copied(),
            at: self.at.copied(),
            undo_id: self.undo_id.copied(),
        }
    }
}

/// The load at one moment.
#[derive(Debug)]
pub struct MetricPoint {
    pub at: i64,
    pub cpu: Metric,
    pub memory: Metric,
    pub disk: Metric,
}

impl Copied for MetricPoint {
    open spec fn same_as(&self, other: &Self) -> bool {
        &&& self.at.same_as(&other.at)
        &&& self.cpu.same_as(&other.cpu)
        &&& self.memory.same_as(&other.memory)
        &&& self.disk.same_as(&other.disk)
    }

    fn copied(&self) -> (r: Self) {
        MetricPoint {
            at: self.at.copied(),
            cpu: self.cpu.copied(),
            memory: self.memory.copied(),
            disk: self.disk.copied(),
        }
    }
}

/// What the model's use has cost, and the rest of the summary as it is encoded.
#[derive(Debug)]
pub struct UsageSummary {
    pub cost_today_usd: Amount,
    pub cost_week_usd: Amount,
    pub rest: String,
}

impl Copied for UsageSummary {
    open spec fn same_as(&self, other: &Self) -> bool {
        &&& self.cost_today_usd.same_as(&other.cost_today_usd)
        &&& self.cost_week_usd.same_as(&other.cost_week_usd)
        &&& self.rest.same_as(&other.rest)
    }

    fn copied(&self) -> (r: Self) {
        UsageSummary {
            cost_today_usd: self.cost_today_usd.copied(),
            cost_week_usd: self.cost_week_usd.copied(),
            rest: self.rest.copied(),
        }
    }
}

/// The settings as the user sees them: the threshold, and the rest as it is encoded.
#[derive(Debug)]
pub struct UiSettings {
    pub confidence_threshold: Metric,
    pub rest: String,
}

impl Copied for UiSettings {
    open spec fn same_as(&self, other: &Self) -> bool {
        &&& self.confidence_threshold.same_as(&other.confidence_threshold)
        &&& self.rest.same_as(&other.rest)
    }

    fn copied(&self) -> (r: Self) {
        UiSettings {
            confidence_threshold: self.confidence_threshold.copied(),
            rest: self.rest.copied(),
        }
    }
}

/// One application of the last update check.
#[derive(Debug)]
pub struct UpdaterAppRow {
    pub id: String,
    pub name: String,
    pub state: String,
    pub ignored: bool,
    pub note: String,
    pub rest: String,
}

impl Copied for UpdaterAppRow {
    open spec fn same_as(&self, other: &Self) -> bool {
        &&& self.id.same_as(&other.id)
        &&& self.name.same_as(&other.name)
        &&& self.state.same_as(&other.state)
        &&& self.ignored.same_as(&other.ignored)
        &&& self.note.same_as(&other.note)
        &&& self.rest.same_as(&other.rest)
    }

    fn copied(&self) -> (r: Self) {
        UpdaterAppRow {
            id: self.id.copied(),
            name: self.name.copied(),
            state: self.state.copied(),
            ignored: self.ignored.copied(),
            note: self.note.copied(),
            rest: self.rest.copied(),
        }
    }
}

/// The state of the updater. Its settings, notes on applications and recent attempts are kept as they are encoded.
#[derive(Debug)]
pub struct UpdaterStatus {
    pub enabled: bool,
    pub running: bool,
    pub phase: String,
    pub last_run: i64,
    pub next_run: i64,
    pub last_clean_run: i64,
    pub last_cost_usd: Amount,
    pub notes: Vec<String>,
    pub apps: Vec<UpdaterAppRow>,
    pub recent: Vec<String>,
    pub settings: String,
    pub app_notes: Vec<String>,
}

impl Copied for UpdaterStatus {
    open spec fn same_as(&self, other: &Self) -> bool {
        &&& self.enabled.same_as(&other.enabled)
        &&& self.running.same_as(&other.running)
        &&& self.phase.same_as(&other.phase)
        &&& self.last_run.same_as(&other.last_run)
        &&& self.next_run.same_as(&other.next_run)
        &&& self.last_clean_run.same_as(&other.last_clean_run)
        &&& self.last_cost_usd.same_as(&other.last_cost_usd)
        &&& self.notes.same_as(&other.notes)
        &&& self.apps.same_as(&other.apps)
        &&& self.recent.same_as(&other.recent)
        &&& self.settings.same_as(&other.settings)
        &&& self.app_notes.same_as(&other.app_notes)
    }

    fn copied(&self) -> (r: Self) {
        UpdaterStatus {
            enabled: self.enabled.copied(),
            running: self.running.copied(),
            phase: self.phase.copied(),
            last_run: self.last_run.copied(),
            next_run: self.next_run.copied(),
            last_clean_run: self.last_clean_run.copied(),
            last_cost_usd: self.last_cost_usd.copied(),
            notes: self.notes.copied(),
            apps: self.apps.copied(),
            recent: self.recent.copied(),
            settings: self.settings.copied(),
            app_notes: self.app_notes.copied(),
        }
    }
}

impl UpdaterStatus {
    /// Whether nothing is said.
    pub open spec fn is_blank(self) -> bool {
        &&& !self.enabled
        &&& !self.running
        &&& self.phase@.len() == 0
        &&& self.last_run == 0
        &&& self.next_run == 0
        &&& self.last_clean_run == 0
        &&& self.last_cost_usd == (Amount { bits: 0 })
        &&& self.notes@.len() == 0
        &&& self.apps@.len() == 0
        &&& self.recent@.len() == 0
        &&& self.settings@.len() == 0
        &&& self.app_notes@.len() == 0
    }
}

impl Default for UpdaterStatus {
    /// Nothing is said.
    fn default() -> (r: UpdaterStatus)
        ensures
            r.is_blank(),
    {
        UpdaterStatus {
            enabled: false,
            running: false,
            phase: String::new(),
            last_run: 0,
            next_run: 0,
            last_clean_run: 0,
            last_cost_usd: Amount { bits: 0 },
            notes: Vec::new(),
            apps: Vec::new(),
            recent: Vec::new(),
            settings: String::new(),
            app_notes: Vec::new(),
        }
    }
}

/// The advisor's settings: the threshold, and the rest as it is encoded.
#[derive(Debug)]
pub struct AdvisorSettingsView {
    pub low_confidence_threshold: Metric,
    pub rest: String,
}

impl Copied for AdvisorSettingsView {
    open spec fn same_as(&self, other: &Self) -> bool {
        &&& self.low_confidence_threshold.same_as(&other.low_confidence_threshold)
        &&& self.rest.same_as(&other.rest)
    }

    fn copied(&self) -> (r: Self) {
        AdvisorSettingsView {
            low_confidence_threshold: self.low_confidence_threshold.copied(),
            rest: self.rest.copied(),
        }
    }
}

impl AdvisorSettingsView {
    /// Whether nothing is said.
    pub open spec fn is_blank(self) -> bool {
        &&& self.low_confidence_threshold == (Metric { bits: 0 })
        &&& self.rest@.len() == 0
    }
}

impl Default for AdvisorSettingsView {
    /// Nothing is said.
    fn default() -> (r: AdvisorSettingsView)
        ensures
            r.is_blank(),
    {
        AdvisorSettingsView {
            low_confidence_threshold: Metric { bits: 0 },
            rest: String::new(),
        }
    }
}

/// The state of the advisor.
#[derive(Debug)]
pub struct AdvisorStatus {
    pub enabled: bool,
    pub escalated: bool,
    pub escalation_model: String,
    pub reason: String,
    pub spent_today_usd: Amount,
    pub settings: AdvisorSettingsView,
}

impl Copied for AdvisorStatus {
    open spec fn same_as(&self, other: &Self) -> bool {
        &&& self.enabled.same_as(&other.enabled)
        &&& self.escalated.same_as(&other.escalated)
        &&& self.escalation_model.same_as(&other.escalation_model)
        &&& self.reason.same_as(&other.reason)
        &&& self.spent_today_usd.same_as(&other.spent_today_usd)
        &&& self.settings.same_as(&other.settings)
    }

    fn copied(&self) -> (r: Self) {
        AdvisorStatus {
            enabled: self.enabled.copied(),
            escalated: self.escalated.copied(),
            escalation_model: self.escalation_model.copied(),
            reason: self.reason.copied(),
            spent_today_usd: self.spent_today_usd.copied(),
            settings: self.settings.copied(),
        }
    }
}

impl AdvisorStatus {
    /// Whether nothing is said.
    pub open spec fn is_blank(self) -> bool {
        &&& !self.enabled
        &&& !self.escalated
        &&& self.escalation_model@.len() == 0
        &&& self.reason@.len() == 0
        &&& self.spent_today_usd == (Amount { bits: 0 })
        &&& self.settings.is_blank()
    }
}

impl Default for AdvisorStatus {
    /// Nothing is said.
    fn default() -> (r: AdvisorStatus)
        ensures
            r.is_blank(),
    {
        AdvisorStatus {
            enabled: false,
            escalated: false,
            escalation_model: String::new(),
            reason: String::new(),
            spent_today_usd: Amount { bits: 0 },
            settings: AdvisorSettingsView::default(),
        }
    }
}

/// One learned fact, as it is encoded.
#[derive(Debug)]
pub struct LearnedFactView {
    pub rest: String,
}

impl Copied for LearnedFactView {
    open spec fn same_as(&self, other: &Self) -> bool {
        &&& self.rest.same_as(&other.rest)
    }

    fn copied(&self) -> (r: Self) {
        LearnedFactView {
            rest: self.rest.copied(),
        }
    }
}

/// The weekly digest.
#[derive(Debug)]
pub struct DigestView {
    pub text: String,
    pub generated_at: i64,
}

impl Copied for DigestView {
    open spec fn same_as(&self, other: &Self) -> bool {
        &&& self.text.same_as(&other.text)
        &&& self.generated_at.same_as(&other.generated_at)
    }

    fn copied(&self) -> (r: Self) {
        DigestView {
            text: self.text.copied(),
            generated_at: self.generated_at.copied(),
        }
    }
}

/// One question and its answer.
#[derive(Debug)]
pub struct AskEntry {
    pub question: String,
    pub answer: String,
    pub at: i64,
    pub attachments: Vec<String>,
}

impl Copied for AskEntry {
    open spec fn same_as(&self, other: &Self) -> bool {
        &&& self.question.same_as(&other.question)
        &&& self.answer.same_as(&other.answer)
        &&& self.at.same_as(&other.at)
        &&& self.attachments.same_as(&other.attachments)
    }

    fn copied(&self) -> (r: Self) {
        AskEntry {
            question: self.question.copied(),
            answer: self.answer.copied(),
            at: self.at.copied(),
            attachments: self.attachments.copied(),
        }
    }
}

/// The state of the questions.
#[derive(Debug)]
pub struct AskStatus {
    pub running: bool,
    pub error: Option<String>,
    pub entries: Vec<AskEntry>,
}

impl Copied for AskStatus {
    open spec fn same_as(&self, other: &Self) -> bool {
        &&& self.running.same_as(&other.running)
        &&& self.error.same_as(&other.error)
        &&& self.entries.same_as(&other.entries)
    }

    fn copied(&self) -> (r: Self) {
        AskStatus {
            running: self.running.copied(),
            error: self.error.copied(),
            entries: self.entries.copied(),
        }
    }
}

/// The result of a scan: when, whether one runs, and its entries as they are encoded.
#[derive(Debug)]
pub struct ScanView {
    pub running: bool,
    pub scanned_at: i64,
    pub error: Option<String>,
    pub entries: Vec<String>,
}

impl Copied for ScanView {
    open spec fn same_as(&self, other: &Self) -> bool {
        &&& self.running.same_as(&other.running)
        &&& self.scanned_at.same_as(&other.scanned_at)
        &&& self.error.same_as(&other.error)
        &&& self.entries.same_as(&other.entries)
    }

    fn copied(&self) -> (r: Self) {
        ScanView {
            running: self.running.copied(),
            scanned_at: self.scanned_at.copied(),
            error: self.error.copied(),
            entries: self.entries.copied(),
        }
    }
}

/// What a startup entry stands for.
#[derive(Debug)]
pub struct StartupToggle {
    pub name: String,
    pub location: String,
    pub hive: String,
    pub task_path: String,
}

impl Copied for StartupToggle {
    open spec fn same_as(&self, other: &Self) -> bool {
        &&& self.name.same_as(&other.name)
        &&& self.location.same_as(&other.location)
        &&& self.hive.same_as(&other.hive)
        &&& self.task_path.same_as(&other.task_path)
    }

    fn copied(&self) -> (r: Self) {
        StartupToggle {
            name: self.name.copied(),
            location: self.location.copied(),
            hive: self.hive.copied(),
            task_path: self.task_path.copied(),
        }
    }
}

/// Everything that the user interface is told.
#[derive(Debug)]
pub struct StatusPayload {
    pub protocol_version: u32,
    pub capabilities: Vec<String>,
    pub status: String,
    pub paused: bool,
    pub cpu: Metric,
    pub memory: Metric,
    pub disk: Metric,
    pub failed_services: Vec<String>,
    pub last_analysis: String,
    pub last_analysis_at: i64,
    pub recent_problems: Vec<ProblemSummary>,
    pub recent_executions: Vec<ExecutionSummary>,
    pub pending_approvals: Vec<ApprovalInfo>,
    pub error: Option<String>,
    pub usage: Option<UsageSummary>,
    pub settings: Option<UiSettings>,
    pub updater: Option<UpdaterStatus>,
    pub advisor: Option<AdvisorStatus>,
    pub learned_facts: Vec<LearnedFactView>,
    pub action_preferences: Vec<ActionPreferenceView>,
    pub digest: Option<DigestView>,
    pub history: Vec<MetricPoint>,
    pub ask: Option<AskStatus>,
    pub disk_insights: Option<ScanView>,
    pub startup: Option<ScanView>,
    pub gaming: bool,
    pub svc_version: Option<String>,
    pub signals_at: i64,
    pub signal_errors: Vec<String>,
}

impl Copied for StatusPayload {
    open spec fn same_as(&self, other: &Self) -> bool {
        &&& self.protocol_version.same_as(&other.protocol_version)
        &&& self.capabilities.same_as(&other.capabilities)
        &&& self.status.same_as(&other.status)
        &&& self.paused.same_as(&other.paused)
        &&& self.cpu.same_as(&other.cpu)
        &&& self.memory.same_as(&other.memory)
        &&& self.disk.same_as(&other.disk)
        &&& self.failed_services.same_as(&other.failed_services)
        &&& self.last_analysis.same_as(&other.last_analysis)
        &&& self.last_analysis_at.same_as(&other.last_analysis_at)
        &&& self.recent_problems.same_as(&other.recent_problems)
        &&& self.recent_executions.same_as(&other.recent_executions)
        &&& self.pending_approvals.same_as(&other.pending_approvals)
        &&& self.error.same_as(&other.error)
        &&& self.usage.same_as(&other.usage)
        &&& self.settings.same_as(&other.settings)
        &&& self.updater.same_as(&other.updater)
        &&& self.advisor.same_as(&other.advisor)
        &&& self.learned_facts.same_as(&other.learned_facts)
        &&& self.action_preferences.same_as(&other.action_preferences)
        &&& self.digest.same_as(&other.digest)
        &&& self.history.same_as(&other.history)
        &&& self.ask.same_as(&other.ask)
        &&& self.disk_insights.same_as(&other.disk_insights)
        &&& self.startup.same_as(&other.startup)
        &&& self.gaming.same_as(&other.gaming)
        &&& self.svc_version.same_as(&other.svc_version)
        &&& self.signals_at.same_as(&other.signals_at)
        &&& self.signal_errors.same_as(&other.signal_errors)
    }

    fn copied(&self) -> (r: Self) {
        StatusPayload {
            protocol_version: self.protocol_version.copied(),
            capabilities: self.capabilities.copied(),
            status: self.status.copied(),
            paused: self.paused.copied(),
            cpu: self.cpu.copied(),
            memory: self.memory.copied(),
            disk: self.disk.copied(),
            failed_services: self.failed_services.copied(),
            last_analysis: self.last_analysis.copied(),
            last_analysis_at: self.last_analysis_at.copied(),
            recent_problems: self.recent_problems.copied(),
            recent_executions: self.recent_executions.copied(),
            pending_approvals: self.pending_approvals.copied(),
            error: self.error.copied(),
            usage: self.usage.copied(),
            settings: self.settings.copied(),
            updater: self.updater.copied(),
            advisor: self.advisor.copied(),
            learned_facts: self.learned_facts.copied(),
            action_preferences: self.action_preferences.copied(),
            digest: self.digest.copied(),
            history: self.history.copied(),
            ask: self.ask.copied(),
            disk_insights: self.disk_insights.copied(),
            startup: self.startup.copied(),
            gaming: self.gaming.copied(),
            svc_version: self.svc_version.copied(),
            signals_at: self.signals_at.copied(),
            signal_errors: self.signal_errors.copied(),
        }
    }
}

impl StatusPayload {
    /// Whether nothing is said.
    pub open spec fn is_blank(self) -> bool {
        &&& self.protocol_version == 0
        &&& self.capabilities@.len() == 0
        &&& self.status@.len() == 0
        &&& !self.paused
        &&& self.cpu == (Metric { bits: 0 })
        &&& self.memory == (Metric { bits: 0 })
        &&& self.disk == (Metric { bits: 0 })
        &&& self.failed_services@.len() == 0
        &&& self.last_analysis@.len() == 0
        &&& self.last_analysis_at == 0
        &&& self.recent_problems@.len() == 0
        &&& self.recent_executions@.len() == 0
        &&& self.pending_approvals@.len() == 0
        &&& self.error is None
        &&& self.usage is None
        &&& self.settings is None
        &&& self.updater is None
        &&& self.advisor is None
        &&& self.learned_facts@.len() == 0
        &&& self.action_preferences@.len() == 0
        &&& self.digest is None
        &&& self.history@.len() == 0
        &&& self.ask is None
        &&& self.disk_insights is None
        &&& self.startup is None
        &&& !self.gaming
        &&& self.svc_version is None
        &&& self.signals_at == 0
        &&& self.signal_errors@.len() == 0
    }
}

impl Default for StatusPayload {
    /// Nothing is said.
    fn default() -> (r: StatusPayload)
        ensures
            r.is_blank(),
    {
        StatusPayload {
            protocol_version: 0,
            capabilities: Vec::new(),
            status: String::new(),
            paused: false,
            cpu: Metric { bits: 0 },
            memory: Metric { bits: 0 },
            disk: Metric { bits: 0 },
            failed_services: Vec::new(),
            last_analysis: String::new(),
            last_analysis_at: 0,
            recent_problems: Vec::new(),
            recent_executions: Vec::new(),
            pending_approvals: Vec::new(),
            error: None,
            usage: None,
            settings: None,
            updater: None,
            advisor: None,
            learned_facts: Vec::new(),
            action_preferences: Vec::new(),
            digest: None,
            history: Vec::new(),
            ask: None,
            disk_insights: None,
            startup: None,
            gaming: false,
            svc_version: None,
            signals_at: 0,
            signal_errors: Vec::new(),
        }
    }
}

impl Copied for ActionPreferenceView {
    open spec fn same_as(&self, other: &Self) -> bool {
        &&& self.action_key.same_as(&other.action_key)
        &&& self.preference.same_as(&other.preference)
        &&& self.summary.same_as(&other.summary)
        &&& self.target.same_as(&other.target)
        &&& self.created_at.same_as(&other.created_at)
    }

    fn copied(&self) -> (r: Self) {
        ActionPreferenceView {
            action_key: self.action_key.copied(),
            preference: self.preference.copied(),
            summary: self.summary.copied(),
            target: self.target.copied(),
            created_at: self.created_at.copied(),
        }
    }
}

impl Copied for NetworkInterface {
    open spec fn same_as(&self, other: &Self) -> bool {
        &&& self.name.same_as(&other.name)
        &&& self.status.same_as(&other.status)
        &&& self.ipv4.same_as(&other.ipv4)
    }

    fn copied(&self) -> (r: Self) {
        NetworkInterface {
            name: self.name.copied(),
            status: self.status.copied(),
            ipv4: self.ipv4.copied(),
        }
    }
}

impl Copied for SystemState {
    open spec fn same_as(&self, other: &Self) -> bool {
        &&& self.collected_at.same_as(&other.collected_at)
        &&& self.collector_errors.same_as(&other.collector_errors)
        &&& self.uptime_secs.same_as(&other.uptime_secs)
        &&& self.cpu_usage_percent.same_as(&other.cpu_usage_percent)
        &&& self.memory_usage_percent.same_as(&other.memory_usage_percent)
        &&& self.memory_available_gb.same_as(&other.memory_available_gb)
        &&& self.disk_usage_percent.same_as(&other.disk_usage_percent)
        &&& self.disk_free_gb.same_as(&other.disk_free_gb)
        &&& self.running_services_count.same_as(&other.running_services_count)
        &&& self.failed_services.same_as(&other.failed_services)
        &&& self.network_interfaces.same_as(&other.network_interfaces)
        &&& self.network_errors.same_as(&other.network_errors)
        &&& self.disk_health.same_as(&other.disk_health)
        &&& self.windows_update_status.same_as(&other.windows_update_status)
        &&& self.security.same_as(&other.security)
    }

    fn copied(&self) -> (r: Self) {
        SystemState {
            collected_at: self.collected_at.copied(),
            collector_errors: self.collector_errors.copied(),
            uptime_secs: self.uptime_secs.copied(),
            cpu_usage_percent: self.cpu_usage_percent.copied(),
            memory_usage_percent: self.memory_usage_percent.copied(),
            memory_available_gb: self.memory_available_gb.copied(),
            disk_usage_percent: self.disk_usage_percent.copied(),
            disk_free_gb: self.disk_free_gb.copied(),
            running_services_count: self.running_services_count.copied(),
            failed_services: self.failed_services.copied(),
            network_interfaces: self.network_interfaces.copied(),
            network_errors: self.network_errors.copied(),
            disk_health: self.disk_health.copied(),
            windows_update_status: self.windows_update_status.copied(),
            security: self.security.copied(),
        }
    }
}

/// A fix that awaits the user's decision, with everything that it takes to run it.
#[derive(Debug)]
pub struct PendingApproval {
    /// What is shown; its number is the one that the queue keeps it under.
    pub info: ApprovalInfo,
    /// The exact action to run if it is approved.
    pub action: FixAction,
    /// The decision that the fix came from.
    pub decision_id: i64,
    /// The machine's state when it was proposed.
    pub baseline: SystemState,
}

/// What came of a command.
#[derive(Debug)]
pub struct CommandResult {
    pub request_id: u64,
    pub ok: bool,
    pub message: String,
}

// ── Copies ────────────────────────────────────────────────────────────────────

/// A copy of an approval holds all that the first holds.
pub proof fn approval_copy_is_whole(a: ApprovalInfo, b: ApprovalInfo)
    requires
        a.same_as(&b),
    ensures
        a.id == b.id,
        a.diagnosis@ == b.diagnosis@,
        a.root_cause@ == b.root_cause@,
        a.confidence == b.confidence,
        a.action@ == b.action@,
        a.reason@ == b.reason@,
        a.side_effects@ == b.side_effects@,
        a.undo_instructions@ == b.undo_instructions@,
        a.action_summary@ == b.action_summary@,
        a.target@ == b.target@,
        a.target_details@ == b.target_details@,
        a.reversible == b.reversible,
        a.created_at == b.created_at,
{
}

/// A copy of a problem holds all that the first holds.
pub proof fn problem_copy_is_whole(a: ProblemSummary, b: ProblemSummary)
    requires
        a.same_as(&b),
    ensures
        a.diagnosis@ == b.diagnosis@,
        a.confidence == b.confidence,
        a.action@ == b.action@,
        a.blocked == b.blocked,
        a.auto_executed == b.auto_executed,
        opt_view(a.reason) == opt_view(b.reason),
        a.at == b.at,
{
}

/// A copy of an action that ran holds all that the first holds.
pub proof fn execution_copy_is_whole(a: ExecutionSummary, b: ExecutionSummary)
    requires
        a.same_as(&b),
    ensures
        a.action@ == b.action@,
        a.success == b.success,
        a.preview@ == b.preview@,
        a.at == b.at,
        a.undo_id == b.undo_id,
{
}

/// A copy of a reading holds all that the first holds.
pub proof fn point_copy_is_whole(a: MetricPoint, b: MetricPoint)
    requires
        a.same_as(&b),
    ensures
        a.at == b.at,
        a.cpu == b.cpu,
        a.memory == b.memory,
        a.disk == b.disk,
{
}

/// A copy of an application holds all that the first holds.
pub proof fn app_copy_is_whole(a: UpdaterAppRow, b: UpdaterAppRow)
    requires
        a.same_as(&b),
    ensures
        a.id@ == b.id@,
        a.name@ == b.name@,
        a.state@ == b.state@,
        a.ignored == b.ignored,
        a.note@ == b.note@,
        a.rest@ == b.rest@,
{
}

/// A copy of the updater holds all that the first holds.
pub proof fn updater_copy_is_whole(a: UpdaterStatus, b: UpdaterStatus)
    requires
        a.same_as(&b),
    ensures
        a.enabled == b.enabled,
        a.running == b.running,
        a.phase@ == b.phase@,
        a.last_run == b.last_run,
        a.next_run == b.next_run,
        a.last_clean_run == b.last_clean_run,
        a.last_cost_usd == b.last_cost_usd,
        views(a.notes@) == views(b.notes@),
        a.apps.same_as(&b.apps),
        views(a.recent@) == views(b.recent@),
        a.settings@ == b.settings@,
        views(a.app_notes@) == views(b.app_notes@),
{
    assert(views(a.notes@) =~= views(b.notes@));
    assert(views(a.recent@) =~= views(b.recent@));
    assert(views(a.app_notes@) =~= views(b.app_notes@));
}

/// A copy of the advisor holds all that the first holds.
pub proof fn advisor_copy_is_whole(a: AdvisorStatus, b: AdvisorStatus)
    requires
        a.same_as(&b),
    ensures
        a.enabled == b.enabled,
        a.escalated == b.escalated,
        a.escalation_model@ == b.escalation_model@,
        a.reason@ == b.reason@,
        a.spent_today_usd == b.spent_today_usd,
        a.settings.same_as(&b.settings),
{
}

/// A copy of a question holds all that the first holds.
pub proof fn question_copy_is_whole(a: AskEntry, b: AskEntry)
    requires
        a.same_as(&b),
    ensures
        a.question@ == b.question@,
        a.answer@ == b.answer@,
        a.at == b.at,
        views(a.attachments@) == views(b.attachments@),
{
    assert(views(a.attachments@) =~= views(b.attachments@));
}

/// A copy of the questions holds all that the first holds.
pub proof fn questions_copy_is_whole(a: AskStatus, b: AskStatus)
    requires
        a.same_as(&b),
    ensures
        a.running == b.running,
        opt_view(a.error) == opt_view(b.error),
        a.entries.same_as(&b.entries),
{
}

/// A copy of a scan holds all that the first holds.
pub proof fn scan_copy_is_whole(a: ScanView, b: ScanView)
    requires
        a.same_as(&b),
    ensures
        a.running == b.running,
        a.scanned_at == b.scanned_at,
        opt_view(a.error) == opt_view(b.error),
        views(a.entries@) == views(b.entries@),
{
    assert(views(a.entries@) =~= views(b.entries@));
}

/// A copy of a startup entry holds all that the first holds.
pub proof fn toggle_copy_is_whole(a: StartupToggle, b: StartupToggle)
    requires
        a.same_as(&b),
    ensures
        a.name@ == b.name@,
        a.location@ == b.location@,
        a.hive@ == b.hive@,
        a.task_path@ == b.task_path@,
{
}

/// A copy of a status holds all that the first holds.
pub proof fn status_copy_is_whole(a: StatusPayload, b: StatusPayload)
    requires
        a.same_as(&b),
    ensures
        a.protocol_version == b.protocol_version,
        views(a.capabilities@) == views(b.capabilities@),
        a.status@ == b.status@,
        a.paused == b.paused,
        a.cpu == b.cpu,
        a.memory == b.memory,
        a.disk == b.disk,
        views(a.failed_services@) == views(b.failed_services@),
        a.last_analysis@ == b.last_analysis@,
        a.last_analysis_at == b.last_analysis_at,
        a.recent_problems.same_as(&b.recent_problems),
        a.recent_executions.same_as(&b.recent_executions),
        a.pending_approvals.same_as(&b.pending_approvals),
        opt_view(a.error) == opt_view(b.error),
        a.usage.same_as(&b.usage),
        a.settings.same_as(&b.settings),
        a.updater.same_as(&b.updater),
        a.advisor.same_as(&b.advisor),
        a.learned_facts.same_as(&b.learned_facts),
        a.action_preferences.same_as(&b.action_preferences),
        a.digest.same_as(&b.digest),
        a.history.same_as(&b.history),
        a.ask.same_as(&b.ask),
        a.disk_insights.same_as(&b.disk_insights),
        a.startup.same_as(&b.startup),
        a.gaming == b.gaming,
        opt_view(a.svc_version) == opt_view(b.svc_version),
        a.signals_at == b.signals_at,
        views(a.signal_errors@) == views(b.signal_errors@),
{
    assert(views(a.capabilities@) =~= views(b.capabilities@));
    assert(views(a.failed_services@) =~= views(b.failed_services@));
    assert(views(a.signal_errors@) =~= views(b.signal_errors@));
}

/// A copy of the machine's state holds all that the first holds.
pub proof fn state_copy_is_whole(a: SystemState, b: SystemState)
    requires
        a.same_as(&b),
    ensures
        a.collected_at == b.collected_at,
        views(a.collector_errors@) == views(b.collector_errors@),
        a.uptime_secs == b.uptime_secs,
        a.cpu_usage_percent == b.cpu_usage_percent,
        a.memory_usage_percent == b.memory_usage_percent,
        a.memory_available_gb == b.memory_available_gb,
        a.disk_usage_percent == b.disk_usage_percent,
        a.disk_free_gb == b.disk_free_gb,
        a.running_services_count == b.running_services_count,
        views(a.failed_services@) == views(b.failed_services@),
        a.network_interfaces.same_as(&b.network_interfaces),
        a.network_errors == b.network_errors,
        a.disk_health@ == b.disk_health@,
        a.windows_update_status@ == b.windows_update_status@,
        a.security == b.security,
{
    assert(views(a.collector_errors@) =~= views(b.collector_errors@));
    assert(views(a.failed_services@) =~= views(b.failed_services@));
}

/// A copy of a preference holds all that the first holds.
pub proof fn preference_copy_is_whole(a: ActionPreferenceView, b: ActionPreferenceView)
    requires
        a.same_as(&b),
    ensures
        a.action_key@ == b.action_key@,
        a.preference@ == b.preference@,
        a.summary@ == b.summary@,
        a.target@ == b.target@,
        a.created_at == b.created_at,
{
}

/// A copy of an interface holds all that the first holds.
pub proof fn interface_copy_is_whole(a: NetworkInterface, b: NetworkInterface)
    requires
        a.same_as(&b),
    ensures
        a.name@ == b.name@,
        a.status@ == b.status@,
        opt_view(a.ipv4) == opt_view(b.ipv4),
{
}

/// A copy of the costs holds all that the first holds.
pub proof fn usage_copy_is_whole(a: UsageSummary, b: UsageSummary)
    requires
        a.same_as(&b),
    ensures
        a.cost_today_usd == b.cost_today_usd,
        a.cost_week_usd == b.cost_week_usd,
        a.rest@ == b.rest@,
{
}

/// A copy of the settings holds all that the first holds.
pub proof fn settings_copy_is_whole(a: UiSettings, b: UiSettings)
    requires
        a.same_as(&b),
    ensures
        a.confidence_threshold == b.confidence_threshold,
        a.rest@ == b.rest@,
{
}

/// A copy of the digest holds all that the first holds.
pub proof fn digest_copy_is_whole(a: DigestView, b: DigestView)
    requires
        a.same_as(&b),
    ensures
        a.text@ == b.text@,
        a.generated_at == b.generated_at,
{
}

} // verus!
