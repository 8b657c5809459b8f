//! What the service reads of a machine, what the model proposes, and what it runs.

use crate::json::{
    convert_value, encode_value, json_encoding, json_strings_within, opt_bytes, strings_within,
    utf8_len, value_model, Json, JsonModel,
};
use crate::metric::{Amount, Metric};
use crate::policy::{action_name, normalized, normalized_target, normalized_windows_target};
use crate::text::{
    ascii_lowercase, chars_of, lemma_views_push, same, same_ignoring_ascii_case, string_range,
    to_ascii_lowercase, unicode_lowercase, views,
};
use vstd::prelude::*;
use vstd::string::*;
use vstd::utf8::*;

verus! {

/// A moment in time: whole seconds since 1970 and the nanoseconds after them.
#[derive(Debug, Clone, Copy, PartialEq, Eq, Structural)]
pub struct Moment {
    pub secs: i64,
    pub nanos: u32,
}

/// Everything that one analysis looks at.
#[derive(Debug)]
pub struct SignalSnapshot {
    pub timestamp: Moment,
    pub event_log: Vec<EventLogEntry>,
    pub file_changes: Vec<FileChange>,
    pub system_state: SystemState,
    pub decision_history: Vec<PastDecision>,
    /// Error dialogs and hung windows that the tray reported.
    pub screen_errors: Vec<ScreenError>,
    /// What the user asked to have looked into.
    pub user_report: Option<String>,
}

/// One record of the machine's event log.
#[derive(Debug, Clone)]
pub struct EventLogEntry {
    pub timestamp: Moment,
    pub level: String,
    pub source: String,
    pub message: String,
    pub event_id: u32,
}

impl EventLogEntry {
    /// Worth analysing: an error or a warning.
    pub open spec fn actionable(self) -> bool {
        self.level@ == "Error"@ || self.level@ == "Warning"@
    }

    /// Worth analysing: the single definition shared by the actionable fingerprint and the
    /// reactive trigger.
    pub fn is_actionable(&self) -> (r: bool)
        ensures
            r == self.actionable(),
    {
        same(self.level.as_str(), "Error") || same(self.level.as_str(), "Warning")
    }
}

/// A change to a watched file.
#[derive(Debug, Clone)]
pub struct FileChange {
    pub path: String,
    pub kind: String,
    pub size_bytes: u64,
    pub timestamp: Moment,
    /// Structured diagnostic info extracted from the file's content.
    pub log_event: Option<LogEvent>,
}

/// Parsed diagnostic information extracted from a log file.
#[derive(Debug, Clone)]
pub struct LogEvent {
    /// Program that wrote this log, inferred from the file path.
    pub program: String,
    pub log_path: String,
    /// Highest severity seen: "FATAL", "ERROR", "WARN", or "INFO".
    pub severity: String,
    /// Up to 5 error excerpts, each with 1 line of context before and 2 after.
    pub error_snippets: Vec<String>,
    /// A capped raw excerpt of the file's actual content, so that a finding can be judged
    /// in context.
    pub content_excerpt: String,
}

impl LogEvent {
    /// Worth analysing: a severity above "INFO", or an excerpt.
    pub open spec fn actionable(self) -> bool {
        self.severity@ != "INFO"@ || self.error_snippets@.len() > 0
    }

    /// Worth analysing: shared by the actionable fingerprint and the file-watch trigger.
    pub fn is_actionable(&self) -> (r: bool)
        ensures
            r == self.actionable(),
    {
        !same(self.severity.as_str(), "INFO") || self.error_snippets.len() > 0
    }
}

/// An error that stood on the user's screen.
#[derive(Debug, Clone)]
pub struct ScreenError {
    pub timestamp: Moment,
    pub app: String,
    pub title: String,
    pub text: String,
    /// The window stopped responding.
    pub hung: bool,
}

/// The machine's state as the periodic snapshot reads it.
#[derive(Debug, Clone)]
pub struct SystemState {
    /// Unix seconds when this snapshot finished collecting.
    pub collected_at: i64,
    /// Collector tokens whose values could not be refreshed.
    pub collector_errors: Vec<String>,
    pub uptime_secs: u64,
    pub cpu_usage_percent: Metric,
    pub memory_usage_percent: Metric,
    pub memory_available_gb: Metric,
    pub disk_usage_percent: Metric,
    pub disk_free_gb: Metric,
    pub running_services_count: usize,
    pub failed_services: Vec<String>,
    pub network_interfaces: Vec<NetworkInterface>,
    pub network_errors: u32,
    pub disk_health: String,
    pub windows_update_status: String,
    /// Security posture (firewall and Defender).
    pub security: SecurityPosture,
}

/// Security-relevant machine state: firewall profiles and Windows Defender.
#[derive(Debug, Clone, Copy, PartialEq, Eq, Structural)]
pub struct SecurityPosture {
    pub firewall: FirewallStatus,
    pub defender: DefenderStatus,
}

/// Whether the firewall is on for each network profile. `None` means that the state
/// could not be read, which is no fault.
#[derive(Debug, Clone, Copy, PartialEq, Eq, Structural)]
pub struct FirewallStatus {
    pub domain: Option<bool>,
    pub private: Option<bool>,
    pub public: Option<bool>,
}

/// Windows Defender antivirus state. What could not be read stays `None`.
#[derive(Debug, Clone, Copy, PartialEq, Eq, Structural)]
pub struct DefenderStatus {
    /// Real-time (on-access) protection is enabled.
    pub realtime_enabled: Option<bool>,
    /// The antivirus engine is running (false when a third-party one has taken over).
    pub antivirus_enabled: Option<bool>,
    /// Age of the signature definitions in days (0 = updated today).
    pub signature_age_days: Option<u32>,
}

#[derive(Debug, Clone)]
pub struct NetworkInterface {
    pub name: String,
    pub status: String,
    pub ipv4: Option<String>,
}

impl Default for SecurityPosture {
    /// A posture of which nothing could be read.
    fn default() -> (r: SecurityPosture)
        ensures
            r == unknown_posture(),
    {
        SecurityPosture {
            firewall: FirewallStatus { domain: None, private: None, public: None },
            defender: DefenderStatus {
                realtime_enabled: None,
                antivirus_enabled: None,
                signature_age_days: None,
            },
        }
    }
}

impl SystemState {
    /// Whether a state is one of which nothing was read.
    pub open spec fn is_blank(self) -> bool {
        let zero = Metric { bits: 0 };
        &&& self.collected_at == 0
        &&& self.collector_errors@.len() == 0
        &&& self.uptime_secs == 0
        &&& self.cpu_usage_percent == zero
        &&& self.memory_usage_percent == zero
        &&& self.memory_available_gb == zero
        &&& self.disk_usage_percent == zero
        &&& self.disk_free_gb == zero
        &&& self.running_services_count == 0
        &&& self.failed_services@.len() == 0
        &&& self.network_interfaces@.len() == 0
        &&& self.network_errors == 0
        &&& self.disk_health@.len() == 0
        &&& self.windows_update_status@.len() == 0
        &&& self.security == unknown_posture()
    }
}

impl Default for SystemState {
    /// A state of which nothing was read.
    fn default() -> (r: SystemState)
        ensures
            r.is_blank(),
    {
        let zero = Metric { bits: 0 };
        SystemState {
            collected_at: 0,
            collector_errors: Vec::new(),
            uptime_secs: 0,
            cpu_usage_percent: zero,
            memory_usage_percent: zero,
            memory_available_gb: zero,
            disk_usage_percent: zero,
            disk_free_gb: zero,
            running_services_count: 0,
            failed_services: Vec::new(),
            network_interfaces: Vec::new(),
            network_errors: 0,
            disk_health: String::new(),
            windows_update_status: String::new(),
            security: SecurityPosture::default(),
        }
    }
}

/// A posture of which nothing could be read.
pub open spec fn unknown_posture() -> SecurityPosture {
    SecurityPosture {
        firewall: FirewallStatus { domain: None, private: None, public: None },
        defender: DefenderStatus {
            realtime_enabled: None,
            antivirus_enabled: None,
            signature_age_days: None,
        },
    }
}

// ── Faults ────────────────────────────────────────────────────────────────────

/// A part of the given kind, where the condition holds.
pub open spec fn part_if(cond: bool, part: Seq<char>) -> Seq<Seq<char>> {
    if cond {
        seq![part]
    } else {
        Seq::empty()
    }
}

/// One part for each failed service.
pub open spec fn service_parts(failed: Seq<String>) -> Seq<Seq<char>> {
    failed.map_values(|s: String| "S|"@ + s@)
}

/// One part for each firewall profile that is known to be off.
pub open spec fn firewall_parts(fw: FirewallStatus) -> Seq<Seq<char>> {
    part_if(fw.domain == Some(false), "FW|domain"@) + part_if(
        fw.private == Some(false),
        "FW|private"@,
    ) + part_if(fw.public == Some(false), "FW|public"@)
}

/// Defender's faults. They count only while Defender is not known to have given way to
/// another antivirus.
pub open spec fn defender_parts(def: DefenderStatus) -> Seq<Seq<char>> {
    let active = def.antivirus_enabled != Some(false);
    part_if(active && def.realtime_enabled == Some(false), "DEF|realtime_off"@) + part_if(
        active && def.signature_age_days is Some && def.signature_age_days->0 > 3,
        "DEF|sig_stale"@,
    )
}

/// A degraded disk is a fault; a healthy or unknown one is not.
pub open spec fn disk_parts(health: Seq<char>) -> Seq<Seq<char>> {
    let dh = unicode_lowercase(health);
    part_if(dh == "warning"@ || dh == "unhealthy"@, "DISK_HEALTH|"@ + dh)
}

impl SystemState {
    /// The parts of each actionable fault, in order.
    pub open spec fn faults(self) -> Seq<Seq<char>> {
        service_parts(self.failed_services@) + firewall_parts(self.security.firewall)
            + defender_parts(self.security.defender) + disk_parts(self.disk_health@)
    }

    /// Stable string parts for each actionable fault: failed services, firewall profiles
    /// explicitly off, Defender faults while Defender is the active antivirus, and a
    /// degraded disk. A healthy machine produces none.
    pub fn fault_parts(&self) -> (r: Vec<String>)
        ensures
            views(r@) == self.faults(),
    {
        let mut parts: Vec<String> = Vec::new();
        let mut i: usize = 0;
        let ghost services = service_parts(self.failed_services@);
        assert(views(parts@) =~= services.take(0));
        while i < self.failed_services.len()
            invariant
                i <= self.failed_services@.len(),
                services == service_parts(self.failed_services@),
                views(parts@) == services.take(i as int),
            decreases self.failed_services@.len() - i,
        {
            let mut part = "S|".to_owned();
            part.append(self.failed_services[i].as_str());
            proof {
                lemma_views_push(parts@, part);
            }
            parts.push(part);
            assert(views(parts@) =~= services.take(i + 1));
            i += 1;
        }
        assert(services.take(services.len() as int) =~= services);
        let fw = self.security.firewall;
        push_if(&mut parts, is_off(fw.domain), "FW|domain");
        push_if(&mut parts, is_off(fw.private), "FW|private");
        push_if(&mut parts, is_off(fw.public), "FW|public");
        assert(views(parts@) =~= services + firewall_parts(fw));
        let def = self.security.defender;
        let active = !is_off(def.antivirus_enabled);
        let stale = match def.signature_age_days {
            Some(days) => days > 3,
            None => false,
        };
        push_if(&mut parts, active && is_off(def.realtime_enabled), "DEF|realtime_off");
        push_if(&mut parts, active && stale, "DEF|sig_stale");
        assert(views(parts@) =~= services + firewall_parts(fw) + defender_parts(def));
        let dh = self.disk_health.to_lowercase();
        let mut part = "DISK_HEALTH|".to_owned();
        part.append(dh.as_str());
        push_if(
            &mut parts,
            same(dh.as_str(), "warning") || same(dh.as_str(), "unhealthy"),
            part.as_str(),
        );
        assert(views(parts@) =~= self.faults());
        parts
    }
}

fn is_off(state: Option<bool>) -> (r: bool)
    ensures
        r == (state == Some(false)),
{
    match state {
        Some(on) => !on,
        None => false,
    }
}

fn push_if(parts: &mut Vec<String>, cond: bool, part: &str)
    ensures
        views(final(parts)@) == views(old(parts)@) + part_if(cond, part@),
{
    if cond {
        let text = part.to_owned();
        proof {
            lemma_views_push(parts@, text);
        }
        parts.push(text);
    }
    assert(views(parts@) =~= views(old(parts)@) + part_if(cond, part@));
}

// ── Decisions ─────────────────────────────────────────────────────────────────

/// An earlier decision, for the model's context.
#[derive(Debug, Clone)]
pub struct PastDecision {
    pub timestamp: Moment,
    pub diagnosis: String,
    pub confidence: Metric,
    pub fix_proposed: String,
}

/// A fix as the model wrote it: its JSON, and the action that it decodes to, if it decodes
/// to one.
#[derive(Debug)]
pub struct ProposedFix {
    pub value: serde_json::Value,
    pub action: Option<FixAction>,
}

/// One problem that the model diagnosed.
#[derive(Debug)]
pub struct Problem {
    pub diagnosis: String,
    pub root_cause: String,
    pub confidence: Metric,
    pub proposed_fix: ProposedFix,
    pub reasoning: String,
    pub side_effects: String,
    pub undo_instructions: String,
}

impl Problem {
    /// The action that the proposed fix decodes to, if it decodes to one.
    pub fn parse_fix_action(&self) -> (r: Option<FixAction>)
        ensures
            r == self.proposed_fix.action,
    {
        match &self.proposed_fix.action {
            Some(action) => Some(action.copy()),
            None => None,
        }
    }
}

/// Problems kept of one model reply.
pub const MAX_MODEL_PROBLEMS: usize = 5;

/// Bytes kept of each piece of a reply's prose.
pub const MAX_MODEL_DECISION_TEXT_BYTES: usize = 16 * 1024;

/// Bytes allowed in one string of a proposed action.
pub const MAX_MODEL_ACTION_STRING_BYTES: usize = 16 * 1024;

/// Bytes allowed in the encoding of a proposed action.
pub const MAX_MODEL_ACTION_BYTES: usize = 64 * 1024;

/// The fixes that the service can run.
#[derive(Debug, Clone)]
pub enum FixAction {
    ServiceRestart { service_name: String },
    ServiceStop { service_name: String },
    ServiceStart { service_name: String },
    LogCleanup { path: String, days_old: u32 },
    DiskCleanup { target: String },
    PowerShellDiagnostic { script: String },
    TaskDisable { task_name: String },
    TaskEnable { task_name: String },
    RegistryReset { key_path: String, value_name: String, value_data: String },
    NetworkDiagnostic { command: String },
    DriverDisable { driver_name: String },
    DriverEnable { driver_name: String },
    SoftwareUninstall { package_name: String },
    BcdEdit { element: String, value: String },
    ProcessKill { process_name: String },
    /// Delete a single file. Never a directory.
    FileDelete { path: String },
    /// Re-enable the firewall for a profile: domain, private, public or all.
    FirewallEnable { profile: String },
    /// Refresh Defender's signature definitions.
    DefenderSignatureUpdate,
    /// Turn Defender's real-time protection back on.
    DefenderRealtimeEnable,
    /// Verify and repair protected system files.
    SfcScan,
    /// Repair the component store.
    DismRestoreHealth,
    /// Enable or disable a logon startup entry; only ever asked for by the user.
    StartupSet {
        /// The name of the entry's approval value.
        name: String,
        /// Which approval key it stands under, from a closed set.
        location: String,
        /// The user's SID for the user locations, empty otherwise.
        hive: String,
        enable: bool,
    },
}

/// A kind and a target in lower case.
pub open spec fn keyed(kind: Seq<char>, target: Seq<char>) -> Seq<char> {
    kind + "|"@ + ascii_lowercase(target)
}

/// A kind and a normalised path.
pub open spec fn path_keyed(kind: Seq<char>, target: Seq<char>) -> Seq<char> {
    kind + "|"@ + normalized_target(target)
}

/// A truth value as text.
pub open spec fn bool_text(b: bool) -> Seq<char> {
    if b {
        "true"@
    } else {
        "false"@
    }
}

/// A truth value as text.
pub fn text_of_bool(b: bool) -> (r: &'static str)
    ensures
        r@ == bool_text(b),
{
    if b {
        "true"
    } else {
        "false"
    }
}

fn key_of(kind: &str, target: &str) -> (r: String)
    ensures
        r@ == keyed(kind@, target@),
{
    let mut r = kind.to_owned();
    r.append("|");
    let lower = to_ascii_lowercase(target);
    r.append(lower.as_str());
    r
}

fn path_key_of(kind: &str, target: &str) -> (r: String)
    ensures
        r@ == path_keyed(kind@, target@),
{
    let mut r = kind.to_owned();
    r.append("|");
    let norm = normalized_windows_target(target);
    r.append(norm.as_str());
    r
}

impl FixAction {
    /// The identity of the issue that an action addresses: its type and the target that it
    /// acts on, never the parameters that a model writes anew each time.
    pub open spec fn key(self) -> Seq<char> {
        match self {
            FixAction::ServiceRestart { service_name } => keyed("service_restart"@, service_name@),
            FixAction::ServiceStop { service_name } => keyed("service_stop"@, service_name@),
            FixAction::ServiceStart { service_name } => keyed("service_start"@, service_name@),
            FixAction::LogCleanup { path, .. } => path_keyed("log_cleanup"@, path@),
            FixAction::DiskCleanup { target } => keyed("disk_cleanup"@, target@),
            FixAction::PowerShellDiagnostic { .. } => "powershell_diagnostic"@,
            FixAction::TaskDisable { task_name } => path_keyed("task_disable"@, task_name@),
            FixAction::TaskEnable { task_name } => path_keyed("task_enable"@, task_name@),
            FixAction::RegistryReset { key_path, value_name, .. } => path_keyed(
                "registry_reset"@,
                key_path@,
            ) + "|"@ + ascii_lowercase(value_name@),
            FixAction::NetworkDiagnostic { command } => keyed("network_diagnostic"@, command@),
            FixAction::DriverDisable { driver_name } => keyed("driver_disable"@, driver_name@),
            FixAction::DriverEnable { driver_name } => keyed("driver_enable"@, driver_name@),
            FixAction::SoftwareUninstall { package_name } => keyed(
                "software_uninstall"@,
                package_name@,
            ),
            FixAction::BcdEdit { element, .. } => keyed("bcd_edit"@, element@),
            FixAction::ProcessKill { process_name } => keyed("process_kill"@, process_name@),
            FixAction::FileDelete { path } => path_keyed("file_delete"@, path@),
            FixAction::FirewallEnable { profile } => keyed("firewall_enable"@, profile@),
            FixAction::DefenderSignatureUpdate => "defender_signature_update"@,
            FixAction::DefenderRealtimeEnable => "defender_realtime_enable"@,
            FixAction::SfcScan => "sfc_scan"@,
            FixAction::DismRestoreHealth => "dism_restore_health"@,
            FixAction::StartupSet { name, location, hive, enable } => keyed("startup_set"@, name@)
                + "|"@ + ascii_lowercase(location@) + "|"@ + ascii_lowercase(hive@) + "|"@
                + bool_text(enable),
        }
    }

    /// Stable identity of the issue that an action addresses, used to stop duplicate
    /// approval cards piling up across analysis runs.
    pub fn dedup_key(&self) -> (r: String)
        ensures
            r@ == self.key(),
    {
        match self {
            FixAction::ServiceRestart { service_name } => key_of(
                "service_restart",
                service_name.as_str(),
            ),
            FixAction::ServiceStop { service_name } => key_of(
                "service_stop",
                service_name.as_str(),
            ),
            FixAction::ServiceStart { service_name } => key_of(
                "service_start",
                service_name.as_str(),
            ),
            FixAction::LogCleanup { path, .. } => path_key_of("log_cleanup", path.as_str()),
            FixAction::DiskCleanup { target } => key_of("disk_cleanup", target.as_str()),
            FixAction::PowerShellDiagnostic { .. } => "powershell_diagnostic".to_owned(),
            FixAction::TaskDisable { task_name } => path_key_of(
                "task_disable",
                task_name.as_str(),
            ),
            FixAction::TaskEnable { task_name } => path_key_of("task_enable", task_name.as_str()),
            FixAction::RegistryReset { key_path, value_name, .. } => {
                let mut r = path_key_of("registry_reset", key_path.as_str());
                r.append("|");
                let value = to_ascii_lowercase(value_name.as_str());
                r.append(value.as_str());
                r
            },
            FixAction::NetworkDiagnostic { command } => key_of(
                "network_diagnostic",
                command.as_str(),
            ),
            FixAction::DriverDisable { driver_name } => key_of(
                "driver_disable",
                driver_name.as_str(),
            ),
            FixAction::DriverEnable { driver_name } => key_of(
                "driver_enable",
                driver_name.as_str(),
            ),
            FixAction::SoftwareUninstall { package_name } => key_of(
                "software_uninstall",
                package_name.as_str(),
            ),
            FixAction::BcdEdit { element, .. } => key_of("bcd_edit", element.as_str()),
            FixAction::ProcessKill { process_name } => key_of(
                "process_kill",
                process_name.as_str(),
            ),
            FixAction::FileDelete { path } => path_key_of("file_delete", path.as_str()),
            FixAction::FirewallEnable { profile } => key_of("firewall_enable", profile.as_str()),
            FixAction::DefenderSignatureUpdate => "defender_signature_update".to_owned(),
            FixAction::DefenderRealtimeEnable => "defender_realtime_enable".to_owned(),
            FixAction::SfcScan => "sfc_scan".to_owned(),
            FixAction::DismRestoreHealth => "dism_restore_health".to_owned(),
            FixAction::StartupSet { name, location, hive, enable } => {
                let mut r = key_of("startup_set", name.as_str());
                r.append("|");
                let place = to_ascii_lowercase(location.as_str());
                r.append(place.as_str());
                r.append("|");
                let sid = to_ascii_lowercase(hive.as_str());
                r.append(sid.as_str());
                r.append("|");
                r.append(text_of_bool(*enable));
                r
            },
        }
    }

    /// The same action again.
    pub fn copy(&self) -> (r: FixAction)
        ensures
            r == *self,
    {
        match self {
            FixAction::ServiceRestart { service_name } => FixAction::ServiceRestart {
                service_name: service_name.clone(),
            },
            FixAction::ServiceStop { service_name } => FixAction::ServiceStop {
                service_name: service_name.clone(),
            },
            FixAction::ServiceStart { service_name } => FixAction::ServiceStart {
                service_name: service_name.clone(),
            },
            FixAction::LogCleanup { path, days_old } => FixAction::LogCleanup {
                path: path.clone(),
                days_old: *days_old,
            },
            FixAction::DiskCleanup { target } => FixAction::DiskCleanup { target: target.clone() },
            FixAction::PowerShellDiagnostic { script } => FixAction::PowerShellDiagnostic {
                script: script.clone(),
            },
            FixAction::TaskDisable { task_name } => FixAction::TaskDisable {
                task_name: task_name.clone(),
            },
            FixAction::TaskEnable { task_name } => FixAction::TaskEnable {
                task_name: task_name.clone(),
            },
            FixAction::RegistryReset { key_path, value_name, value_data } => FixAction::RegistryReset {
                key_path: key_path.clone(),
                value_name: value_name.clone(),
                value_data: value_data.clone(),
            },
            FixAction::NetworkDiagnostic { command } => FixAction::NetworkDiagnostic {
                command: command.clone(),
            },
            FixAction::DriverDisable { driver_name } => FixAction::DriverDisable {
                driver_name: driver_name.clone(),
            },
            FixAction::DriverEnable { driver_name } => FixAction::DriverEnable {
                driver_name: driver_name.clone(),
            },
            FixAction::SoftwareUninstall { package_name } => FixAction::SoftwareUninstall {
                package_name: package_name.clone(),
            },
            FixAction::BcdEdit { element, value } => FixAction::BcdEdit {
                element: element.clone(),
                value: value.clone(),
            },
            FixAction::ProcessKill { process_name } => FixAction::ProcessKill {
                process_name: process_name.clone(),
            },
            FixAction::FileDelete { path } => FixAction::FileDelete { path: path.clone() },
            FixAction::FirewallEnable { profile } => FixAction::FirewallEnable {
                profile: profile.clone(),
            },
            FixAction::DefenderSignatureUpdate => FixAction::DefenderSignatureUpdate,
            FixAction::DefenderRealtimeEnable => FixAction::DefenderRealtimeEnable,
            FixAction::SfcScan => FixAction::SfcScan,
            FixAction::DismRestoreHealth => FixAction::DismRestoreHealth,
            FixAction::StartupSet { name, location, hive, enable } => FixAction::StartupSet {
                name: name.clone(),
                location: location.clone(),
                hive: hive.clone(),
                enable: *enable,
            },
        }
    }
}

/// What came of running an action.
#[derive(Debug, Clone)]
pub struct ExecutionResult {
    pub action: String,
    pub success: bool,
    pub output: String,
    /// For a registry reset, the value before it was overwritten; `None` for every other
    /// action.
    pub undo: Option<RegistryUndo>,
}

/// Registry scalar types that can be snapshotted and restored without losing data.
#[derive(Debug, Clone, Copy, PartialEq, Eq, Structural)]
pub enum RegistryScalarKind {
    String,
    ExpandString,
    DWord,
    QWord,
}

impl RegistryScalarKind {
    /// The name that a kind is stored under.
    pub open spec fn name(self) -> Seq<char> {
        match self {
            RegistryScalarKind::String => "String"@,
            RegistryScalarKind::ExpandString => "ExpandString"@,
            RegistryScalarKind::DWord => "DWord"@,
            RegistryScalarKind::QWord => "QWord"@,
        }
    }

    pub fn as_str(self) -> (r: &'static str)
        ensures
            r@ == self.name(),
    {
        match self {
            RegistryScalarKind::String => "String",
            RegistryScalarKind::ExpandString => "ExpandString",
            RegistryScalarKind::DWord => "DWord",
            RegistryScalarKind::QWord => "QWord",
        }
    }

    pub fn from_storage(value: &str) -> (r: Option<Self>)
        ensures
            match r {
                Some(kind) => value@ == kind.name(),
                None => forall|kind: RegistryScalarKind| value@ != #[trigger] kind.name(),
            },
    {
        if same(value, "String") {
            Some(RegistryScalarKind::String)
        } else if same(value, "ExpandString") {
            Some(RegistryScalarKind::ExpandString)
        } else if same(value, "DWord") {
            Some(RegistryScalarKind::DWord)
        } else if same(value, "QWord") {
            Some(RegistryScalarKind::QWord)
        } else {
            None
        }
    }
}

/// A stored kind reads back as itself: no two kinds share a name.
pub proof fn stored_kind_reads_back(a: RegistryScalarKind, b: RegistryScalarKind)
    ensures
        a.name() == b.name() ==> a == b,
{
    reveal_strlit("String");
    reveal_strlit("ExpandString");
    reveal_strlit("DWord");
    reveal_strlit("QWord");
    assert("String"@.len() == 6 && "ExpandString"@.len() == 12);
    assert("DWord"@[0] == 'D' && "QWord"@[0] == 'Q');
}

/// The prior state of a registry value captured before a reset, enough to restore its
/// exact scalar type and data, or delete the value if it did not exist.
#[derive(Debug, Clone)]
pub struct RegistryUndo {
    pub key_path: String,
    pub value_name: String,
    /// True if the value existed before it was written.
    pub prior_existed: bool,
    pub prior_kind: Option<RegistryScalarKind>,
    pub prior_data: Option<String>,
    /// Exact value that was written; undo is allowed only while the live value still
    /// matches it.
    pub applied_kind: Option<RegistryScalarKind>,
    pub applied_data: Option<String>,
}

/// The model's reply.
#[derive(Debug)]
pub struct ClaudeDecision {
    pub analysis: String,
    pub problems: Vec<Problem>,
    /// The model saw something that it could not diagnose at this reasoning level.
    pub needs_deeper_analysis: bool,
}

/// Token and cost usage for a single model call; the cost is 0 when unknown.
#[derive(Debug, Clone)]
pub struct CallUsage {
    pub input_tokens: u64,
    pub output_tokens: u64,
    pub cache_creation: u64,
    pub cache_read: u64,
    pub cost_usd: Amount,
}

// ── Bounding a reply ──────────────────────────────────────────────────────────

/// The longest start of a text that takes at most `max` bytes in UTF-8.
pub open spec fn truncated_utf8(s: Seq<char>, max: int) -> Seq<char>
    decreases s.len(),
{
    if utf8_len(s) <= max || s.len() == 0 {
        s
    } else {
        truncated_utf8(s.drop_last(), max)
    }
}

/// The bytes that one character takes in UTF-8.
pub open spec fn char_width(c: char) -> nat {
    encode_scalar(c as u32).len()
}

pub proof fn lemma_utf8_len_push(s: Seq<char>, c: char)
    ensures
        utf8_len(s.push(c)) == utf8_len(s) + char_width(c),
    decreases s.len(),
{
    if s.len() == 0 {
        assert(s.push(c).drop_first() =~= Seq::<char>::empty());
        assert(s.push(c)[0] == c);
        assert(encode_utf8(Seq::<char>::empty()).len() == 0);
        assert(encode_utf8(s.push(c)) == encode_scalar(c as u32) + encode_utf8(
            s.push(c).drop_first(),
        ));
    } else {
        lemma_utf8_len_push(s.drop_first(), c);
        assert(s.push(c).drop_first() =~= s.drop_first().push(c));
        assert(s.push(c)[0] == s[0]);
    }
}

/// A longer start of a text takes no fewer bytes.
pub proof fn lemma_utf8_len_grows(s: Seq<char>, k: int)
    requires
        0 <= k <= s.len(),
    ensures
        utf8_len(s.take(k)) <= utf8_len(s),
    decreases s.len(),
{
    if k < s.len() {
        lemma_utf8_len_grows(s.drop_last(), k);
        assert(s.drop_last().take(k) =~= s.take(k));
        assert(s.drop_last().push(s.last()) =~= s);
        lemma_utf8_len_push(s.drop_last(), s.last());
    } else {
        assert(s.take(k) =~= s);
    }
}

/// A start that fits, with one more character not fitting, is the longest that fits.
proof fn lemma_truncated_at(s: Seq<char>, k: int, max: int)
    requires
        0 <= k <= s.len(),
        utf8_len(s.take(k)) <= max,
        k < s.len() ==> utf8_len(s.take(k + 1)) > max,
    ensures
        truncated_utf8(s, max) == s.take(k),
    decreases s.len(),
{
    if k < s.len() {
        lemma_utf8_len_grows(s, k + 1);
        assert(s.drop_last().take(k) =~= s.take(k));
        if k + 1 < s.len() {
            assert(s.drop_last().take(k + 1) =~= s.take(k + 1));
        }
        lemma_truncated_at(s.drop_last(), k, max);
    } else {
        assert(s.take(k) =~= s);
    }
}

fn width_of(c: char) -> (w: usize)
    ensures
        w == char_width(c),
        1 <= w <= 4,
{
    let code: u32 = c as u32;
    proof {
        char_is_scalar(c);
    }
    if code <= 0x7f {
        1
    } else if code <= 0x7ff {
        2
    } else if code <= 0xffff {
        3
    } else {
        4
    }
}

/// Cut a text to the longest start of it that takes at most `max_bytes` bytes; a character
/// is never cut in two.
pub fn truncate_utf8_bytes(value: &mut String, max_bytes: usize)
    ensures
        final(value)@ == truncated_utf8(old(value)@, max_bytes as int),
{
    let v = chars_of(value.as_str());
    let ghost s = value@;
    let mut used: usize = 0;
    let mut i: usize = 0;
    assert(s.take(0) =~= Seq::<char>::empty());
    assert(encode_utf8(Seq::<char>::empty()).len() == 0);
    while i < v.len()
        invariant_except_break
            used == utf8_len(s.take(i as int)),
            i <= v@.len(),
            v@ == s,
            used <= max_bytes,
        ensures
            i <= v@.len(),
            utf8_len(s.take(i as int)) <= max_bytes,
            i < v@.len() ==> utf8_len(s.take(i + 1)) > max_bytes,
        decreases v@.len() - i,
    {
        let w: usize = width_of(v[i]);
        proof {
            lemma_utf8_len_push(s.take(i as int), s[i as int]);
            assert(s.take(i as int).push(s[i as int]) =~= s.take(i + 1));
        }
        if w > max_bytes - used {
            break;
        }
        used += w;
        i += 1;
    }
    proof {
        lemma_truncated_at(s, i as int, max_bytes as int);
    }
    assert(v@.subrange(0, i as int) =~= s.take(i as int));
    *value = string_range(&v, 0, i);
}

/// A problem with its prose as characters.
pub struct ProblemModel {
    pub diagnosis: Seq<char>,
    pub root_cause: Seq<char>,
    pub confidence: Metric,
    pub proposed_fix: ProposedFix,
    pub reasoning: Seq<char>,
    pub side_effects: Seq<char>,
    pub undo_instructions: Seq<char>,
}

impl View for Problem {
    type V = ProblemModel;

    open spec fn view(&self) -> ProblemModel {
        ProblemModel {
            diagnosis: self.diagnosis@,
            root_cause: self.root_cause@,
            confidence: self.confidence,
            proposed_fix: self.proposed_fix,
            reasoning: self.reasoning@,
            side_effects: self.side_effects@,
            undo_instructions: self.undo_instructions@,
        }
    }
}

/// Prose of a reply, cut to the bound.
pub open spec fn bounded_prose(s: Seq<char>) -> Seq<char> {
    truncated_utf8(s, MAX_MODEL_DECISION_TEXT_BYTES as int)
}

/// A problem with each piece of its prose cut to the bound; its fix stays as it is.
pub open spec fn bounded_problem(p: ProblemModel) -> ProblemModel {
    ProblemModel {
        diagnosis: bounded_prose(p.diagnosis),
        root_cause: bounded_prose(p.root_cause),
        confidence: p.confidence,
        proposed_fix: p.proposed_fix,
        reasoning: bounded_prose(p.reasoning),
        side_effects: bounded_prose(p.side_effects),
        undo_instructions: bounded_prose(p.undo_instructions),
    }
}

/// Whether a fix is within its bounds, by what its JSON holds and by its encoding: every
/// string is short enough, and the whole of it can be written down in few enough bytes.
pub open spec fn fix_is_bounded(value: JsonModel, encoding: Option<Seq<u8>>) -> bool {
    &&& strings_within(value, MAX_MODEL_ACTION_STRING_BYTES as int)
    &&& encoding is Some && encoding->0.len() <= MAX_MODEL_ACTION_BYTES
}

/// Whether a fix is within its bounds.
pub fn fix_within_bounds(value: &Json, encoding: &Option<Vec<u8>>) -> (r: bool)
    ensures
        r == fix_is_bounded(value@, opt_bytes(*encoding)),
{
    json_strings_within(value, MAX_MODEL_ACTION_STRING_BYTES) && match encoding {
        Some(bytes) => bytes.len() <= MAX_MODEL_ACTION_BYTES,
        None => false,
    }
}

/// A fix that may be considered: it is within its bounds, and it decodes to an action.
pub open spec fn acceptable_fix(fix: ProposedFix) -> bool {
    fix_is_bounded(value_model(fix.value), json_encoding(fix.value)) && fix.action is Some
}

/// The problems with an acceptable fix, in order.
pub open spec fn acceptable_problems(problems: Seq<Problem>) -> Seq<ProblemModel>
    decreases problems.len(),
{
    if problems.len() == 0 {
        Seq::empty()
    } else {
        let before = acceptable_problems(problems.drop_last());
        if acceptable_fix(problems.last().proposed_fix) {
            before.push(bounded_problem(problems.last()@))
        } else {
            before
        }
    }
}

/// The views of a sequence of problems.
pub open spec fn problem_views(problems: Seq<Problem>) -> Seq<ProblemModel> {
    problems.map_values(|p: Problem| p@)
}

/// What a reply's problems come to: the first few acceptable ones, with their prose cut.
pub open spec fn bounded_problems(problems: Seq<Problem>) -> Seq<ProblemModel> {
    let all = acceptable_problems(problems);
    if all.len() <= MAX_MODEL_PROBLEMS {
        all
    } else {
        all.take(MAX_MODEL_PROBLEMS as int)
    }
}

fn bound_problem(p: Problem) -> (r: Problem)
    ensures
        r@ == bounded_problem(p@),
{
    let mut p = p;
    truncate_utf8_bytes(&mut p.diagnosis, MAX_MODEL_DECISION_TEXT_BYTES);
    truncate_utf8_bytes(&mut p.root_cause, MAX_MODEL_DECISION_TEXT_BYTES);
    truncate_utf8_bytes(&mut p.reasoning, MAX_MODEL_DECISION_TEXT_BYTES);
    truncate_utf8_bytes(&mut p.side_effects, MAX_MODEL_DECISION_TEXT_BYTES);
    truncate_utf8_bytes(&mut p.undo_instructions, MAX_MODEL_DECISION_TEXT_BYTES);
    p
}

impl ClaudeDecision {
    /// Enforce the bounds on a reply before any of it is logged, shown or routed. Prose is
    /// shortened; a problem whose action is oversized or is none of the known actions is
    /// dropped whole, since a shortened action could be another action.
    pub fn bound_model_output(&mut self)
        ensures
            final(self).analysis@ == bounded_prose(old(self).analysis@),
            problem_views(final(self).problems@) == bounded_problems(old(self).problems@),
            final(self).needs_deeper_analysis == old(self).needs_deeper_analysis,
    {
        truncate_utf8_bytes(&mut self.analysis, MAX_MODEL_DECISION_TEXT_BYTES);
        let mut problems: Vec<Problem> = Vec::new();
        std::mem::swap(&mut problems, &mut self.problems);
        let ghost all = problems@;
        let mut kept: Vec<Problem> = Vec::new();
        assert(problem_views(kept@) =~= Seq::<ProblemModel>::empty());
        for problem in it: problems
            invariant
                it.seq() == all,
                problem_views(kept@) == acceptable_problems(all.take(it.index() as int)),
        {
            let ghost i = it.index() as int;
            assert(all.take(i + 1).drop_last() =~= all.take(i));
            assert(all.take(i + 1).last() == problem);
            let keep = fix_within_bounds(
                &convert_value(&problem.proposed_fix.value),
                &encode_value(&problem.proposed_fix.value),
            ) && problem.proposed_fix.action.is_some();
            if keep {
                let bounded = bound_problem(problem);
                let ghost before = kept@;
                kept.push(bounded);
                assert(problem_views(kept@) =~= problem_views(before).push(bounded@));
            }
        }
        assert(all.take(all.len() as int) =~= all);
        assert(problem_views(kept@).len() == kept@.len());
        let ghost full = kept@;
        kept.truncate(MAX_MODEL_PROBLEMS);
        assert(problem_views(kept@) =~= bounded_problems(all));
        self.problems = kept;
    }
}

/// However long a reply is, what is left of it is within the bounds: few problems, each
/// with an action that decodes, and no prose beyond its cap.
pub proof fn bounded_reply_is_within_bounds(problems: Seq<Problem>, i: int)
    requires
        0 <= i < bounded_problems(problems).len(),
    ensures
        bounded_problems(problems).len() <= MAX_MODEL_PROBLEMS,
        acceptable_fix(bounded_problems(problems)[i].proposed_fix),
        utf8_len(bounded_problems(problems)[i].diagnosis) <= MAX_MODEL_DECISION_TEXT_BYTES,
        utf8_len(bounded_problems(problems)[i].root_cause) <= MAX_MODEL_DECISION_TEXT_BYTES,
        utf8_len(bounded_problems(problems)[i].reasoning) <= MAX_MODEL_DECISION_TEXT_BYTES,
        utf8_len(bounded_problems(problems)[i].side_effects) <= MAX_MODEL_DECISION_TEXT_BYTES,
        utf8_len(bounded_problems(problems)[i].undo_instructions)
            <= MAX_MODEL_DECISION_TEXT_BYTES,
{
    lemma_acceptable_item(problems, i);
}

proof fn lemma_acceptable_item(problems: Seq<Problem>, i: int)
    requires
        0 <= i < acceptable_problems(problems).len(),
    ensures
        ({
            let p = acceptable_problems(problems)[i];
            &&& acceptable_fix(p.proposed_fix)
            &&& utf8_len(p.diagnosis) <= MAX_MODEL_DECISION_TEXT_BYTES
            &&& utf8_len(p.root_cause) <= MAX_MODEL_DECISION_TEXT_BYTES
            &&& utf8_len(p.reasoning) <= MAX_MODEL_DECISION_TEXT_BYTES
            &&& utf8_len(p.side_effects) <= MAX_MODEL_DECISION_TEXT_BYTES
            &&& utf8_len(p.undo_instructions) <= MAX_MODEL_DECISION_TEXT_BYTES
        }),
    decreases problems.len(),
{
    if problems.len() > 0 {
        let before = acceptable_problems(problems.drop_last());
        let p = problems.last();
        if i < before.len() {
            lemma_acceptable_item(problems.drop_last(), i);
        } else {
            lemma_truncated_fits(p.diagnosis@, MAX_MODEL_DECISION_TEXT_BYTES as int);
            lemma_truncated_fits(p.root_cause@, MAX_MODEL_DECISION_TEXT_BYTES as int);
            lemma_truncated_fits(p.reasoning@, MAX_MODEL_DECISION_TEXT_BYTES as int);
            lemma_truncated_fits(p.side_effects@, MAX_MODEL_DECISION_TEXT_BYTES as int);
            lemma_truncated_fits(p.undo_instructions@, MAX_MODEL_DECISION_TEXT_BYTES as int);
        }
    }
}

/// Cutting a text leaves a start of it that fits.
pub proof fn lemma_truncated_fits(s: Seq<char>, max: int)
    requires
        max >= 0,
    ensures
        utf8_len(truncated_utf8(s, max)) <= max,
        truncated_utf8(s, max).is_prefix_of(s),
    decreases s.len(),
{
    if utf8_len(s) <= max || s.len() == 0 {
        assert(s =~= s.take(s.len() as int));
        assert(s.len() == 0 ==> encode_utf8(s).len() == 0);
    } else {
        lemma_truncated_fits(s.drop_last(), max);
        let t = truncated_utf8(s, max);
        assert(t == s.drop_last().take(t.len() as int));
        assert(t =~= s.take(t.len() as int));
    }
}

// ── What a key tells apart ────────────────────────────────────────────────────

/// What stands before the first bar of a text, or all of it where it has none.
pub open spec fn before_bar(s: Seq<char>) -> Seq<char>
    decreases s.len(),
{
    if s.len() == 0 || s[0] == '|' {
        Seq::empty()
    } else {
        seq![s[0]] + before_bar(s.skip(1))
    }
}

proof fn lemma_before_bar(name: Seq<char>, rest: Seq<char>)
    requires
        forall|i: int| 0 <= i < name.len() ==> name[i] != '|',
        rest.len() == 0 || rest[0] == '|',
    ensures
        before_bar(name + rest) == name,
    decreases name.len(),
{
    if name.len() == 0 {
        assert(name + rest =~= rest);
        assert(before_bar(name + rest) =~= name);
    } else {
        lemma_before_bar(name.skip(1), rest);
        assert((name + rest).skip(1) =~= name.skip(1) + rest);
        assert(seq![name[0]] + name.skip(1) =~= name);
    }
}

proof fn lemma_names_hold_no_bar(action: FixAction)
    ensures
        forall|i: int| 0 <= i < action_name(action).len() ==> action_name(action)[i] != '|',
{
    reveal_strlit("service_restart");
    reveal_strlit("service_stop");
    reveal_strlit("service_start");
    reveal_strlit("log_cleanup");
    reveal_strlit("disk_cleanup");
    reveal_strlit("powershell_diagnostic");
    reveal_strlit("task_disable");
    reveal_strlit("task_enable");
    reveal_strlit("registry_reset");
    reveal_strlit("network_diagnostic");
    reveal_strlit("driver_disable");
    reveal_strlit("driver_enable");
    reveal_strlit("software_uninstall");
    reveal_strlit("bcd_edit");
    reveal_strlit("process_kill");
    reveal_strlit("file_delete");
    reveal_strlit("firewall_enable");
    reveal_strlit("defender_signature_update");
    reveal_strlit("defender_realtime_enable");
    reveal_strlit("sfc_scan");
    reveal_strlit("dism_restore_health");
    reveal_strlit("startup_set");
}

/// What follows the name of the action's type in its key.
spec fn key_tail(action: FixAction) -> Seq<char> {
    action.key().skip(action_name(action).len() as int)
}

proof fn lemma_key_starts_with_name(action: FixAction)
    ensures
        before_bar(action.key()) == action_name(action),
{
    reveal_strlit("|");
    lemma_names_hold_no_bar(action);
    let tail = key_tail(action);
    assert(action.key() =~= action_name(action) + tail);
    lemma_before_bar(action_name(action), tail);
}

/// Actions of two different types never share a key.
pub proof fn key_tells_types_apart(a: FixAction, b: FixAction)
    ensures
        a.key() == b.key() ==> action_name(a) == action_name(b),
{
    lemma_key_starts_with_name(a);
    lemma_key_starts_with_name(b);
}

/// The parameters that a model writes anew on every run do not show in the key: the age of
/// a cleanup, the body of a script, the data of a registry value, the value of a boot
/// element.
pub proof fn key_ignores_regenerated_parameters(
    target: String,
    name: String,
    one: String,
    other: String,
    days: u32,
    more_days: u32,
)
    ensures
        (FixAction::LogCleanup { path: target, days_old: days }).key() == (FixAction::LogCleanup {
            path: target,
            days_old: more_days,
        }).key(),
        (FixAction::PowerShellDiagnostic { script: one }).key() == (
        FixAction::PowerShellDiagnostic { script: other }).key(),
        (FixAction::RegistryReset { key_path: target, value_name: name, value_data: one }).key()
            == (FixAction::RegistryReset {
            key_path: target,
            value_name: name,
            value_data: other,
        }).key(),
        (FixAction::BcdEdit { element: target, value: one }).key() == (FixAction::BcdEdit {
            element: target,
            value: other,
        }).key(),
{
}

/// A named target has the same key in any ASCII case, and another key otherwise.
pub proof fn key_of_a_name_ignores_case(a: String, b: String)
    ensures
        (FixAction::ServiceRestart { service_name: a }).key() == (FixAction::ServiceRestart {
            service_name: b,
        }).key() <==> same_ignoring_ascii_case(a@, b@),
        (FixAction::ServiceStop { service_name: a }).key() == (FixAction::ServiceStop {
            service_name: b,
        }).key() <==> same_ignoring_ascii_case(a@, b@),
        (FixAction::ServiceStart { service_name: a }).key() == (FixAction::ServiceStart {
            service_name: b,
        }).key() <==> same_ignoring_ascii_case(a@, b@),
        (FixAction::DiskCleanup { target: a }).key() == (FixAction::DiskCleanup {
            target: b,
        }).key() <==> same_ignoring_ascii_case(a@, b@),
        (FixAction::NetworkDiagnostic { command: a }).key() == (FixAction::NetworkDiagnostic {
            command: b,
        }).key() <==> same_ignoring_ascii_case(a@, b@),
        (FixAction::DriverDisable { driver_name: a }).key() == (FixAction::DriverDisable {
            driver_name: b,
        }).key() <==> same_ignoring_ascii_case(a@, b@),
        (FixAction::DriverEnable { driver_name: a }).key() == (FixAction::DriverEnable {
            driver_name: b,
        }).key() <==> same_ignoring_ascii_case(a@, b@),
        (FixAction::SoftwareUninstall { package_name: a }).key() == (FixAction::SoftwareUninstall {
            package_name: b,
        }).key() <==> same_ignoring_ascii_case(a@, b@),
        (FixAction::ProcessKill { process_name: a }).key() == (FixAction::ProcessKill {
            process_name: b,
        }).key() <==> same_ignoring_ascii_case(a@, b@),
        (FixAction::FirewallEnable { profile: a }).key() == (FixAction::FirewallEnable {
            profile: b,
        }).key() <==> same_ignoring_ascii_case(a@, b@),
{
    lemma_same_after(("service_restart"@ + "|"@), ascii_lowercase(a@), ascii_lowercase(b@));
    lemma_same_after(("service_stop"@ + "|"@), ascii_lowercase(a@), ascii_lowercase(b@));
    lemma_same_after(("service_start"@ + "|"@), ascii_lowercase(a@), ascii_lowercase(b@));
    lemma_same_after(("disk_cleanup"@ + "|"@), ascii_lowercase(a@), ascii_lowercase(b@));
    lemma_same_after(("network_diagnostic"@ + "|"@), ascii_lowercase(a@), ascii_lowercase(b@));
    lemma_same_after(("driver_disable"@ + "|"@), ascii_lowercase(a@), ascii_lowercase(b@));
    lemma_same_after(("driver_enable"@ + "|"@), ascii_lowercase(a@), ascii_lowercase(b@));
    lemma_same_after(("software_uninstall"@ + "|"@), ascii_lowercase(a@), ascii_lowercase(b@));
    lemma_same_after(("process_kill"@ + "|"@), ascii_lowercase(a@), ascii_lowercase(b@));
    lemma_same_after(("firewall_enable"@ + "|"@), ascii_lowercase(a@), ascii_lowercase(b@));
}

proof fn lemma_same_after(head: Seq<char>, x: Seq<char>, y: Seq<char>)
    ensures
        head + x == head + y <==> x == y,
{
    if head + x == head + y {
        assert((head + x).skip(head.len() as int) =~= x);
        assert((head + y).skip(head.len() as int) =~= y);
    }
}

/// A path target has the same key however it is spelled, as long as it comes to the same
/// components.
pub proof fn key_of_a_path_follows_its_components(
    a: String,
    b: String,
    name: String,
    same_name: String,
    data: String,
    days: u32,
)
    requires
        normalized(a@) == normalized(b@),
        same_ignoring_ascii_case(name@, same_name@),
    ensures
        (FixAction::FileDelete { path: a }).key() == (FixAction::FileDelete { path: b }).key(),
        (FixAction::LogCleanup { path: a, days_old: days }).key() == (FixAction::LogCleanup {
            path: b,
            days_old: days,
        }).key(),
        (FixAction::TaskDisable { task_name: a }).key() == (FixAction::TaskDisable {
            task_name: b,
        }).key(),
        (FixAction::TaskEnable { task_name: a }).key() == (FixAction::TaskEnable {
            task_name: b,
        }).key(),
        (FixAction::RegistryReset { key_path: a, value_name: name, value_data: data }).key() == (
        FixAction::RegistryReset { key_path: b, value_name: same_name, value_data: data }).key(),
{
}

/// Switching a startup entry on and switching it off are two issues.
pub proof fn startup_switches_have_two_keys(name: String, location: String, hive: String)
    ensures
        (FixAction::StartupSet { name, location, hive, enable: true }).key() != (
        FixAction::StartupSet { name, location, hive, enable: false }).key(),
{
    reveal_strlit("true");
    reveal_strlit("false");
    let on = (FixAction::StartupSet { name, location, hive, enable: true }).key();
    let off = (FixAction::StartupSet { name, location, hive, enable: false }).key();
    assert(on.len() + 1 == off.len());
}

// ── What a reading and a reply come to ────────────────────────────────────────

/// What is wrong with a machine shows in its faults: each failed service, each firewall profile
/// that is off, real-time protection that is off and signatures older than three days where
/// another antivirus has not taken over, and a disk that is degraded.
pub proof fn what_is_wrong_is_a_fault(s: SystemState, i: int)
    ensures
        0 <= i < s.failed_services@.len() ==> s.faults().contains("S|"@ + s.failed_services@[i]@),
        s.security.firewall.domain == Some(false) ==> s.faults().contains("FW|domain"@),
        s.security.firewall.private == Some(false) ==> s.faults().contains("FW|private"@),
        s.security.firewall.public == Some(false) ==> s.faults().contains("FW|public"@),
        s.security.defender.antivirus_enabled != Some(false)
            && s.security.defender.realtime_enabled == Some(false) ==> s.faults().contains(
            "DEF|realtime_off"@,
        ),
        s.security.defender.antivirus_enabled != Some(false)
            && s.security.defender.signature_age_days is Some && (
        s.security.defender.signature_age_days->0) > 3 ==> s.faults().contains("DEF|sig_stale"@),
        unicode_lowercase(s.disk_health@) == "warning"@ ==> s.faults().contains(
            "DISK_HEALTH|"@ + "warning"@,
        ),
        unicode_lowercase(s.disk_health@) == "unhealthy"@ ==> s.faults().contains(
            "DISK_HEALTH|"@ + "unhealthy"@,
        ),
{
    let a = service_parts(s.failed_services@);
    if 0 <= i < s.failed_services@.len() {
        assert(a[i] == "S|"@ + s.failed_services@[i]@);
        lemma_fault_of(s, "S|"@ + s.failed_services@[i]@);
    }
    let fw = s.security.firewall;
    lemma_firewall_fault(fw);
    lemma_fault_of(s, "FW|domain"@);
    lemma_fault_of(s, "FW|private"@);
    lemma_fault_of(s, "FW|public"@);
    lemma_defender_fault(s.security.defender);
    lemma_fault_of(s, "DEF|realtime_off"@);
    lemma_fault_of(s, "DEF|sig_stale"@);
    let h = disk_parts(s.disk_health@);
    if h.len() > 0 {
        assert(h.contains(h[0]));
        lemma_fault_of(s, h[0]);
    }
}

proof fn lemma_either_holds(a: Seq<Seq<char>>, b: Seq<Seq<char>>, x: Seq<char>)
    ensures
        (a + b).contains(x) <==> a.contains(x) || b.contains(x),
{
    if a.contains(x) {
        let k = choose|k: int| 0 <= k < a.len() && a[k] == x;
        assert((a + b)[k] == x);
    }
    if b.contains(x) {
        let k = choose|k: int| 0 <= k < b.len() && b[k] == x;
        assert((a + b)[a.len() + k] == x);
    }
    if (a + b).contains(x) {
        let k = choose|k: int| 0 <= k < (a + b).len() && (a + b)[k] == x;
        if k < a.len() {
            assert(a[k] == x);
        } else {
            assert(b[k - a.len()] == x);
        }
    }
}

proof fn lemma_fault_of(s: SystemState, x: Seq<char>)
    ensures
        s.faults().contains(x) <==> service_parts(s.failed_services@).contains(x)
            || firewall_parts(s.security.firewall).contains(x) || defender_parts(
            s.security.defender,
        ).contains(x) || disk_parts(s.disk_health@).contains(x),
{
    let a = service_parts(s.failed_services@);
    let f = firewall_parts(s.security.firewall);
    let d = defender_parts(s.security.defender);
    lemma_either_holds(a, f, x);
    lemma_either_holds(a + f, d, x);
    lemma_either_holds(a + f + d, disk_parts(s.disk_health@), x);
}

proof fn lemma_firewall_fault(fw: FirewallStatus)
    ensures
        fw.domain == Some(false) ==> firewall_parts(fw).contains("FW|domain"@),
        fw.private == Some(false) ==> firewall_parts(fw).contains("FW|private"@),
        fw.public == Some(false) ==> firewall_parts(fw).contains("FW|public"@),
{
    let d = part_if(fw.domain == Some(false), "FW|domain"@);
    let p = part_if(fw.private == Some(false), "FW|private"@);
    let u = part_if(fw.public == Some(false), "FW|public"@);
    let all = firewall_parts(fw);
    if d.len() > 0 {
        assert(all[0] == "FW|domain"@);
    }
    if p.len() > 0 {
        assert(all[d.len() as int] == "FW|private"@);
    }
    if u.len() > 0 {
        assert(all[(d.len() + p.len()) as int] == "FW|public"@);
    }
}

proof fn lemma_defender_fault(def: DefenderStatus)
    ensures
        def.antivirus_enabled != Some(false) && def.realtime_enabled == Some(false)
            ==> defender_parts(def).contains("DEF|realtime_off"@),
        def.antivirus_enabled != Some(false) && def.signature_age_days is Some && (
        def.signature_age_days->0) > 3 ==> defender_parts(def).contains("DEF|sig_stale"@),
{
    let active = def.antivirus_enabled != Some(false);
    let r = part_if(active && def.realtime_enabled == Some(false), "DEF|realtime_off"@);
    let all = defender_parts(def);
    if r.len() > 0 {
        assert(all[0] == "DEF|realtime_off"@);
    }
    if active && def.signature_age_days is Some && def.signature_age_days->0 > 3 {
        assert(all[r.len() as int] == "DEF|sig_stale"@);
    }
}

/// What is not known to be wrong is no fault: a machine without failed services, whose firewall
/// and Defender are on or unknown, or whose Defender has given way, and whose disk is not known
/// to be degraded has none.
pub proof fn what_is_not_known_to_be_wrong_is_no_fault(s: SystemState)
    requires
        s.failed_services@.len() == 0,
        s.security.firewall.domain != Some(false),
        s.security.firewall.private != Some(false),
        s.security.firewall.public != Some(false),
        s.security.defender.antivirus_enabled == Some(false) || (
        s.security.defender.realtime_enabled != Some(false) && (
        s.security.defender.signature_age_days is None || (
        s.security.defender.signature_age_days->0) <= 3)),
        unicode_lowercase(s.disk_health@) != "warning"@,
        unicode_lowercase(s.disk_health@) != "unhealthy"@,
    ensures
        s.faults().len() == 0,
{
}

/// The problems that are kept of a reply are the first five whose fix decodes to an action and
/// is within its bounds, in the reply's order.
pub proof fn first_acceptable_problems_are_kept(problems: Seq<Problem>)
    ensures
        ({
            let good = problems.filter(|p: Problem| acceptable_fix(p.proposed_fix));
            &&& bounded_problems(problems).len() == (if good.len() <= 5 {
                good.len() as int
            } else {
                5
            })
            &&& forall|i: int|
                0 <= i < bounded_problems(problems).len() ==> #[trigger] bounded_problems(
                    problems,
                )[i] == bounded_problem(good[i]@)
        }),
{
    lemma_acceptable_is_filter(problems);
}

proof fn lemma_acceptable_is_filter(problems: Seq<Problem>)
    ensures
        acceptable_problems(problems) == problems.filter(
            |p: Problem| acceptable_fix(p.proposed_fix),
        ).map_values(|p: Problem| bounded_problem(p@)),
    decreases problems.len(),
{
    reveal(Seq::filter);
    let good = |p: Problem| acceptable_fix(p.proposed_fix);
    let cut = |p: Problem| bounded_problem(p@);
    if problems.len() > 0 {
        let before = problems.drop_last();
        lemma_acceptable_is_filter(before);
        if good(problems.last()) {
            assert(problems.filter(good) == before.filter(good).push(problems.last()));
            assert(before.filter(good).push(problems.last()).map_values(cut)
                =~= before.filter(good).map_values(cut).push(bounded_problem(problems.last()@)));
        }
    }
}

/// A fix is acceptable exactly where it decodes to an action, each of its strings takes at most
/// sixteen kibibytes and the whole of it can be written down in sixty-four.
pub proof fn fix_is_taken_within_its_bounds(fix: ProposedFix)
    ensures
        acceptable_fix(fix) <==> fix.action is Some && strings_within(
            value_model(fix.value),
            16_384,
        ) && json_encoding(fix.value) is Some && (json_encoding(fix.value)->0).len() <= 65_536,
{
}

/// Bounding a problem shortens its prose and changes nothing else: its fix and its confidence
/// stay, and each piece of prose is its own start, the whole of it where that fits.
pub proof fn bounding_shortens_prose_alone(p: ProblemModel)
    ensures
        bounded_problem(p).proposed_fix == p.proposed_fix,
        bounded_problem(p).confidence == p.confidence,
        bounded_problem(p).diagnosis.is_prefix_of(p.diagnosis),
        bounded_problem(p).root_cause.is_prefix_of(p.root_cause),
        bounded_problem(p).reasoning.is_prefix_of(p.reasoning),
        bounded_problem(p).side_effects.is_prefix_of(p.side_effects),
        bounded_problem(p).undo_instructions.is_prefix_of(p.undo_instructions),
        utf8_len(p.diagnosis) <= 16_384 ==> bounded_problem(p).diagnosis == p.diagnosis,
        utf8_len(p.root_cause) <= 16_384 ==> bounded_problem(p).root_cause == p.root_cause,
        utf8_len(p.reasoning) <= 16_384 ==> bounded_problem(p).reasoning == p.reasoning,
        utf8_len(p.side_effects) <= 16_384 ==> bounded_problem(p).side_effects == p.side_effects,
        utf8_len(p.undo_instructions) <= 16_384 ==> bounded_problem(p).undo_instructions
            == p.undo_instructions,
{
    lemma_truncated_fits(p.diagnosis, 16_384);
    lemma_truncated_fits(p.root_cause, 16_384);
    lemma_truncated_fits(p.reasoning, 16_384);
    lemma_truncated_fits(p.side_effects, 16_384);
    lemma_truncated_fits(p.undo_instructions, 16_384);
}

/// A cut text is the longest start of the text that fits: it fits, and with the character that
/// follows it, it would not.
pub proof fn cut_text_is_the_longest_that_fits(s: Seq<char>, max: int)
    requires
        max >= 0,
    ensures
        utf8_len(truncated_utf8(s, max)) <= max,
        truncated_utf8(s, max).is_prefix_of(s),
        truncated_utf8(s, max).len() < s.len() ==> utf8_len(
            s.take(truncated_utf8(s, max).len() as int + 1),
        ) > max,
    decreases s.len(),
{
    lemma_truncated_fits(s, max);
    if !(utf8_len(s) <= max || s.len() == 0) {
        let rest = s.drop_last();
        cut_text_is_the_longest_that_fits(rest, max);
        let n = truncated_utf8(s, max).len() as int;
        if n < rest.len() {
            assert(rest.take(n + 1) =~= s.take(n + 1));
        } else {
            assert(s.take(n + 1) =~= s);
        }
    }
}

/// A path target has another key where it comes to other components; a registry value has
/// another key under another name in any case, and in another place.
pub proof fn key_of_a_path_tells_targets_apart(
    a: String,
    b: String,
    value: String,
    other: String,
    data: String,
    days: u32,
)
    ensures
        (FixAction::FileDelete { path: a }).key() == (FixAction::FileDelete { path: b }).key()
            ==> normalized_target(a@) == normalized_target(b@),
        (FixAction::LogCleanup { path: a, days_old: days }).key() == (FixAction::LogCleanup {
            path: b,
            days_old: days,
        }).key() ==> normalized_target(a@) == normalized_target(b@),
        (FixAction::TaskDisable { task_name: a }).key() == (FixAction::TaskDisable {
            task_name: b,
        }).key() ==> normalized_target(a@) == normalized_target(b@),
        (FixAction::TaskEnable { task_name: a }).key() == (FixAction::TaskEnable {
            task_name: b,
        }).key() ==> normalized_target(a@) == normalized_target(b@),
        (FixAction::RegistryReset { key_path: a, value_name: value, value_data: data }).key() == (
        FixAction::RegistryReset { key_path: b, value_name: value, value_data: data }).key()
            ==> normalized_target(a@) == normalized_target(b@),
        (FixAction::RegistryReset { key_path: a, value_name: value, value_data: data }).key() == (
        FixAction::RegistryReset { key_path: a, value_name: other, value_data: data }).key() <==> (
        same_ignoring_ascii_case(value@, other@)),
        (FixAction::BcdEdit { element: a, value: data }).key() == (FixAction::BcdEdit {
            element: b,
            value: data,
        }).key() <==> same_ignoring_ascii_case(a@, b@),
{
    let x = normalized_target(a@);
    let y = normalized_target(b@);
    lemma_same_after("file_delete"@ + "|"@, x, y);
    lemma_same_after("log_cleanup"@ + "|"@, x, y);
    lemma_same_after("task_disable"@ + "|"@, x, y);
    lemma_same_after("task_enable"@ + "|"@, x, y);
    lemma_same_after("bcd_edit"@ + "|"@, ascii_lowercase(a@), ascii_lowercase(b@));
    let end = "|"@ + ascii_lowercase(value@);
    let p = "registry_reset"@ + "|"@;
    assert(p + x + "|"@ + ascii_lowercase(value@) =~= p + x + end);
    assert(p + y + "|"@ + ascii_lowercase(value@) =~= p + y + end);
    if p + x + end == p + y + end {
        assert((p + x + end).len() == (p + y + end).len());
        assert((p + x + end).subrange(p.len() as int, (p + x).len() as int) =~= x);
        assert((p + y + end).subrange(p.len() as int, (p + y).len() as int) =~= y);
    }
    lemma_same_after(p + x + "|"@, ascii_lowercase(value@), ascii_lowercase(other@));
}

/// An entry is worth analysing where it is an error or a warning, and a log event where its
/// severity is above the lowest or an excerpt was taken.
pub proof fn errors_and_warnings_are_worth_analysing(
    entry: &EventLogEntry,
    event: &LogEvent,
    a: bool,
    b: bool,
)
    requires
        call_ensures(EventLogEntry::is_actionable, (entry,), a),
        call_ensures(LogEvent::is_actionable, (event,), b),
    ensures
        a <==> entry.level@ == "Error"@ || entry.level@ == "Warning"@,
        b <==> event.severity@ != "INFO"@ || event.error_snippets@.len() > 0,
{
}

/// Of an unknown posture nothing is said to be on or off.
pub proof fn unknown_posture_says_nothing()
    ensures
        unknown_posture().firewall.domain is None && unknown_posture().firewall.private is None
            && unknown_posture().firewall.public is None,
        unknown_posture().defender.realtime_enabled is None
            && unknown_posture().defender.antivirus_enabled is None
            && unknown_posture().defender.signature_age_days is None,
{
}

} // verus!
