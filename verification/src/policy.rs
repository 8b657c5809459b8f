//! The execution policy: which fixes run by themselves, which wait for the user, and
//! which never run.

use crate::metric::{less, Metric};
use crate::models::FixAction;
use crate::paths::{back_slashed, is_separator, separator};
use crate::text::{
    after_prefix, ascii_letter, ascii_lower, ascii_lowercase, chars_of, eq_ignore_ascii_case,
    is_listed, join, joined, lemma_views_push, listed, opt_view, same, same_ignoring_ascii_case,
    split_by, split_on, string_range, strip_text_prefix, trim, trim_end, trim_start, trimmed,
    trimmed_start, unicode_lowercase, unicode_whitespace, views, what_follows_a_prefix,
};
use vstd::prelude::*;
use vstd::string::*;
use vstd::utf8::*;

verus! {

// ── Paths ─────────────────────────────────────────────────────────────────────

/// A path on another machine: two separators once leading white space is off.
pub open spec fn network_path(path: Seq<char>) -> bool {
    let p = trim_start(path);
    p.len() >= 2 && separator(p[0]) && separator(p[1])
}

/// A registry path with the long name of its hive folded to the drive form.
pub open spec fn hive_folded(p: Seq<char>) -> Seq<char> {
    let machine = "HKEY_LOCAL_MACHINE"@;
    let user = "HKEY_CURRENT_USER"@;
    if p.len() >= machine.len() && same_ignoring_ascii_case(p.take(machine.len() as int), machine) {
        "HKLM:"@ + p.skip(machine.len() as int)
    } else if p.len() >= user.len() && same_ignoring_ascii_case(p.take(user.len() as int), user) {
        "HKCU:"@ + p.skip(user.len() as int)
    } else {
        p
    }
}

/// A path without the extended-length prefix.
pub open spec fn without_verbatim(p: Seq<char>) -> Seq<char> {
    match after_prefix(p, "\\\\?\\"@) {
        Some(rest) => rest,
        None => p,
    }
}

/// The components that a sequence of path pieces comes to: empty pieces and `.` say
/// nothing, `..` goes back one component but never past the first, and every other piece
/// is a component, in lower case.
pub open spec fn resolved(pieces: Seq<Seq<char>>) -> Seq<Seq<char>>
    decreases pieces.len(),
{
    if pieces.len() == 0 {
        Seq::empty()
    } else {
        let before = resolved(pieces.drop_last());
        let piece = pieces.last();
        if piece.len() == 0 || piece == "."@ {
            before
        } else if piece == ".."@ {
            if before.len() > 1 {
                before.drop_last()
            } else {
                before
            }
        } else {
            before.push(unicode_lowercase(piece))
        }
    }
}

/// The pieces of a path or registry key between its separators, once the white space
/// around it, the long hive name and the extended-length prefix are taken care of.
pub open spec fn path_pieces(path: Seq<char>) -> Seq<Seq<char>> {
    split_on(without_verbatim(hive_folded(trim(path))), |c: char| separator(c))
}

/// The components of a path or registry key, for comparison.
pub open spec fn normalized(path: Seq<char>) -> Seq<Seq<char>> {
    resolved(path_pieces(path))
}

/// Whether a path is the ancestor or lies under it. Nothing lies under an ancestor
/// without components.
pub open spec fn within(path: Seq<char>, ancestor: Seq<char>) -> bool {
    normalized(ancestor).len() > 0 && normalized(ancestor).is_prefix_of(normalized(path))
}

/// True for a UNC or network path: two separators of either kind, after white space.
pub fn is_network_path(path: &str) -> (r: bool)
    ensures
        r == network_path(path@),
{
    let p = trimmed_start(path);
    let v = chars_of(p.as_str());
    v.len() >= 2 && is_separator(v[0]) && is_separator(v[1])
}

/// The text with `to` in place of `from`, where it starts with `from` in any ASCII case.
fn fold_alias(p: &str, from: &str, to: &str) -> (r: Option<String>)
    ensures
        opt_view(r) == (if p@.len() >= from@.len() && same_ignoring_ascii_case(
            p@.take(from@.len() as int),
            from@,
        ) {
            Some(to@ + p@.skip(from@.len() as int))
        } else {
            None
        }),
{
    let v = chars_of(p);
    let alias = chars_of(from);
    if v.len() < alias.len() {
        return None;
    }
    let head = string_range(&v, 0, alias.len());
    assert(head@ =~= p@.take(from@.len() as int));
    if !eq_ignore_ascii_case(head.as_str(), from) {
        return None;
    }
    let tail = string_range(&v, alias.len(), v.len());
    assert(tail@ =~= p@.skip(from@.len() as int));
    let mut folded = to.to_owned();
    folded.append(tail.as_str());
    Some(folded)
}

fn fold_hive(p: String) -> (r: String)
    ensures
        r@ == hive_folded(p@),
{
    match fold_alias(p.as_str(), "HKEY_LOCAL_MACHINE", "HKLM:") {
        Some(folded) => folded,
        None => match fold_alias(p.as_str(), "HKEY_CURRENT_USER", "HKCU:") {
            Some(folded) => folded,
            None => p,
        },
    }
}

/// The components of a path or registry key, in lower case and with `.` and `..` resolved
/// in the text alone: hive aliases are folded, an extended-length prefix is taken off, and
/// both separators count.
pub fn normalize_path_lexical(path: &str) -> (r: Vec<String>)
    ensures
        views(r@) == normalized(path@),
{
    let folded = fold_hive(trimmed(path));
    let plain = match strip_text_prefix(folded.as_str(), "\\\\?\\") {
        Some(rest) => rest,
        None => folded,
    };
    let ghost sep = |c: char| separator(c);
    let pieces = split_by(plain.as_str(), is_separator, Ghost(sep));
    let ghost all = path_pieces(path@);
    assert(views(pieces@) == all);
    let mut comps: Vec<String> = Vec::new();
    let mut i: usize = 0;
    assert(all.take(0) =~= Seq::<Seq<char>>::empty());
    assert(views(comps@) =~= Seq::<Seq<char>>::empty());
    while i < pieces.len()
        invariant
            i <= pieces@.len(),
            views(pieces@) == all,
            views(comps@) == resolved(all.take(i as int)),
        decreases pieces@.len() - i,
    {
        assert(all.take(i + 1).drop_last() =~= all.take(i as int));
        assert(all.take(i + 1).last() == pieces@[i as int]@);
        assert(comps@.len() == views(comps@).len());
        let piece = pieces[i].as_str();
        if piece.is_empty() || same(piece, ".") {
        } else if same(piece, "..") {
            if comps.len() > 1 {
                let ghost before = comps@;
                let _ = comps.pop();
                assert(views(comps@) =~= views(before).drop_last());
            }
        } else {
            let comp = piece.to_lowercase();
            proof {
                lemma_views_push(comps@, comp);
            }
            comps.push(comp);
        }
        i += 1;
    }
    assert(all.take(all.len() as int) =~= all);
    comps
}

/// True if `path` equals or is a descendant of `ancestor`, compared on normalised
/// components. An `ancestor` without components never matches.
pub fn is_within(path: &str, ancestor: &str) -> (r: bool)
    ensures
        r == within(path@, ancestor@),
{
    let cand = normalize_path_lexical(path);
    let anc = normalize_path_lexical(ancestor);
    let ghost c = views(cand@);
    let ghost a = views(anc@);
    assert(c.len() == cand@.len() && a.len() == anc@.len());
    if anc.len() == 0 || cand.len() < anc.len() {
        return false;
    }
    let mut i: usize = 0;
    while i < anc.len()
        invariant
            i <= anc@.len() <= cand@.len(),
            c == views(cand@),
            a == views(anc@),
            c == normalized(path@),
            a == normalized(ancestor@),
            forall|k: int| 0 <= k < i ==> a[k] == c[k],
        decreases anc@.len() - i,
    {
        assert(a[i as int] == anc@[i as int]@ && c[i as int] == cand@[i as int]@);
        if !same(anc[i].as_str(), cand[i].as_str()) {
            assert(a[i as int] != c.take(a.len() as int)[i as int]);
            return false;
        }
        i += 1;
    }
    assert(a =~= c.take(a.len() as int));
    true
}

// ── The policy ────────────────────────────────────────────────────────────────

/// A confidence: its value, and the whole per cent that it is shown as.
#[derive(Debug, Clone)]
pub struct Confidence {
    pub value: Metric,
    pub percent: String,
}

#[derive(Debug)]
pub struct ExecutionPolicy {
    pub execution: ExecutionConfig,
    pub whitelist: WhitelistConfig,
    pub blocklist: BlocklistConfig,
}

#[derive(Debug)]
pub struct ExecutionConfig {
    pub confidence_threshold: Confidence,
    pub max_retries_per_issue: usize,
    pub rate_limit_mins: u32,
    pub auto_approve_on_success_rate: Metric,
}

#[derive(Debug)]
pub struct WhitelistConfig {
    pub actions: Vec<String>,
}

#[derive(Debug)]
pub struct BlocklistConfig {
    pub services: Vec<String>,
    pub paths: Vec<String>,
    /// Action types that are never executed, not even with approval.
    pub actions: Vec<String>,
    /// Scheduled-task path prefixes that task_disable and task_enable may never target.
    pub tasks: Vec<String>,
}

/// What the policy says of one proposed action.
pub enum Verdict {
    AutoApprove,
    RequireApproval(String),
    Block(String),
}

/// A verdict with its reason as characters.
pub enum VerdictModel {
    AutoApprove,
    RequireApproval(Seq<char>),
    Block(Seq<char>),
}

impl View for Verdict {
    type V = VerdictModel;

    open spec fn view(&self) -> VerdictModel {
        match self {
            Verdict::AutoApprove => VerdictModel::AutoApprove,
            Verdict::RequireApproval(reason) => VerdictModel::RequireApproval(reason@),
            Verdict::Block(reason) => VerdictModel::Block(reason@),
        }
    }
}

/// The name of an action's type, as policy files write it.
pub open spec fn action_name(action: FixAction) -> Seq<char> {
    match action {
        FixAction::ServiceRestart { .. } => "service_restart"@,
        FixAction::ServiceStop { .. } => "service_stop"@,
        FixAction::ServiceStart { .. } => "service_start"@,
        FixAction::LogCleanup { .. } => "log_cleanup"@,
        FixAction::DiskCleanup { .. } => "disk_cleanup"@,
        FixAction::PowerShellDiagnostic { .. } => "powershell_diagnostic"@,
        FixAction::TaskDisable { .. } => "task_disable"@,
        FixAction::TaskEnable { .. } => "task_enable"@,
        FixAction::RegistryReset { .. } => "registry_reset"@,
        FixAction::NetworkDiagnostic { .. } => "network_diagnostic"@,
        FixAction::DriverDisable { .. } => "driver_disable"@,
        FixAction::DriverEnable { .. } => "driver_enable"@,
        FixAction::SoftwareUninstall { .. } => "software_uninstall"@,
        FixAction::BcdEdit { .. } => "bcd_edit"@,
        FixAction::ProcessKill { .. } => "process_kill"@,
        FixAction::FileDelete { .. } => "file_delete"@,
        FixAction::FirewallEnable { .. } => "firewall_enable"@,
        FixAction::DefenderSignatureUpdate => "defender_signature_update"@,
        FixAction::DefenderRealtimeEnable => "defender_realtime_enable"@,
        FixAction::SfcScan => "sfc_scan"@,
        FixAction::DismRestoreHealth => "dism_restore_health"@,
        FixAction::StartupSet { .. } => "startup_set"@,
    }
}

/// The name of an action's type, as policy files write it.
pub fn action_type_name(action: &FixAction) -> (r: &'static str)
    ensures
        r@ == action_name(*action),
{
    match action {
        FixAction::ServiceRestart { .. } => "service_restart",
        FixAction::ServiceStop { .. } => "service_stop",
        FixAction::ServiceStart { .. } => "service_start",
        FixAction::LogCleanup { .. } => "log_cleanup",
        FixAction::DiskCleanup { .. } => "disk_cleanup",
        FixAction::PowerShellDiagnostic { .. } => "powershell_diagnostic",
        FixAction::TaskDisable { .. } => "task_disable",
        FixAction::TaskEnable { .. } => "task_enable",
        FixAction::RegistryReset { .. } => "registry_reset",
        FixAction::NetworkDiagnostic { .. } => "network_diagnostic",
        FixAction::DriverDisable { .. } => "driver_disable",
        FixAction::DriverEnable { .. } => "driver_enable",
        FixAction::SoftwareUninstall { .. } => "software_uninstall",
        FixAction::BcdEdit { .. } => "bcd_edit",
        FixAction::ProcessKill { .. } => "process_kill",
        FixAction::FileDelete { .. } => "file_delete",
        FixAction::FirewallEnable { .. } => "firewall_enable",
        FixAction::DefenderSignatureUpdate => "defender_signature_update",
        FixAction::DefenderRealtimeEnable => "defender_realtime_enable",
        FixAction::SfcScan => "sfc_scan",
        FixAction::DismRestoreHealth => "dism_restore_health",
        FixAction::StartupSet { .. } => "startup_set",
    }
}

/// Whether a path lies under one of the listed ancestors.
pub open spec fn under_any(list: Seq<String>, path: Seq<char>) -> bool {
    exists|i: int| 0 <= i < list.len() && within(path, (#[trigger] list[i])@)
}

/// Whether a name is one of the listed names, in any case.
pub open spec fn named_in_any_case(list: Seq<String>, name: Seq<char>) -> bool {
    exists|i: int|
        0 <= i < list.len() && unicode_lowercase((#[trigger] list[i])@) == unicode_lowercase(name)
}

/// `before`, then the text, then `after`.
pub open spec fn quoted(before: Seq<char>, s: Seq<char>, after: Seq<char>) -> Seq<char> {
    before + s + after
}

fn quote(before: &str, s: &str, after: &str) -> (r: String)
    ensures
        r@ == quoted(before@, s@, after@),
{
    let mut r = before.to_owned();
    r.append(s);
    r.append(after);
    r
}

fn is_under_any(list: &Vec<String>, path: &str) -> (r: bool)
    ensures
        r == under_any(list@, path@),
{
    let mut i: usize = 0;
    while i < list.len()
        invariant
            i <= list@.len(),
            forall|k: int| 0 <= k < i ==> !within(path@, (#[trigger] list@[k])@),
        decreases list@.len() - i,
    {
        if is_within(path, list[i].as_str()) {
            return true;
        }
        i += 1;
    }
    false
}

impl ExecutionPolicy {
    /// Why a target is on the blocklist, if it is.
    pub open spec fn block_reason(self, action: FixAction) -> Option<Seq<char>> {
        let b = self.blocklist;
        match action {
            FixAction::ServiceRestart { service_name }
            | FixAction::ServiceStop { service_name }
            | FixAction::ServiceStart { service_name } => if named_in_any_case(
                b.services@,
                service_name@,
            ) {
                Some(quoted("Service '"@, service_name@, "' is on the blocklist"@))
            } else {
                None
            },
            FixAction::LogCleanup { path, .. } | FixAction::FileDelete { path } => if network_path(
                path@,
            ) {
                Some(quoted("Refusing '"@, path@, "' — network/UNC paths are not allowed"@))
            } else if under_any(b.paths@, path@) {
                Some(quoted("Path '"@, path@, "' is on the blocklist"@))
            } else {
                None
            },
            FixAction::RegistryReset { key_path, .. } => if under_any(b.paths@, key_path@) {
                Some(quoted("Registry path '"@, key_path@, "' is on the blocklist"@))
            } else {
                None
            },
            FixAction::TaskDisable { task_name } | FixAction::TaskEnable { task_name } => if under_any(
                b.tasks@,
                task_name@,
            ) {
                Some(quoted("Scheduled task '"@, task_name@, "' is on the blocklist"@))
            } else {
                None
            },
            _ => None,
        }
    }

    /// The verdict on an action proposed with a confidence: an action type on the
    /// blocklist is blocked, then a blocked target, then a confidence below the threshold;
    /// of the rest, what the whitelist names runs and all else needs approval.
    pub open spec fn verdict(self, action: FixAction, confidence: Metric, percent: Seq<char>) -> VerdictModel {
        let name = action_name(action);
        if listed(self.blocklist.actions@, name) {
            VerdictModel::Block(quoted("Action '"@, name, "' is disabled by policy"@))
        } else if self.block_reason(action) is Some {
            VerdictModel::Block(self.block_reason(action)->0)
        } else if less(confidence, self.execution.confidence_threshold.value) {
            VerdictModel::Block(
                quoted("Confidence "@, percent, "% below threshold "@)
                    + self.execution.confidence_threshold.percent@ + "%"@,
            )
        } else if !listed(self.whitelist.actions@, name) {
            VerdictModel::RequireApproval(
                quoted("Action '"@, name, "' needs approval (not auto-executed)"@),
            )
        } else {
            VerdictModel::AutoApprove
        }
    }

    /// The verdict on an action proposed with a confidence.
    pub fn evaluate(&self, action: &FixAction, confidence: &Confidence) -> (r: Verdict)
        ensures
            r@ == self.verdict(*action, confidence.value, confidence.percent@),
    {
        let name = action_type_name(action);
        if is_listed(&self.blocklist.actions, name) {
            return Verdict::Block(quote("Action '", name, "' is disabled by policy"));
        }
        if let Some(reason) = self.blocked_reason(action) {
            return Verdict::Block(reason);
        }
        let threshold = &self.execution.confidence_threshold;
        if confidence.value.less_than(threshold.value) {
            let mut reason = quote("Confidence ", confidence.percent.as_str(), "% below threshold ");
            reason.append(threshold.percent.as_str());
            reason.append("%");
            return Verdict::Block(reason);
        }
        if !is_listed(&self.whitelist.actions, name) {
            return Verdict::RequireApproval(
                quote("Action '", name, "' needs approval (not auto-executed)"),
            );
        }
        Verdict::AutoApprove
    }

    /// Why the action's target may not be touched, if the blocklist says so.
    pub fn blocked_reason(&self, action: &FixAction) -> (r: Option<String>)
        ensures
            opt_view(r) == self.block_reason(*action),
    {
        match action {
            FixAction::ServiceRestart { service_name }
            | FixAction::ServiceStop { service_name }
            | FixAction::ServiceStart { service_name } => {
                if self.service_blocked(service_name.as_str()) {
                    Some(quote("Service '", service_name.as_str(), "' is on the blocklist"))
                } else {
                    None
                }
            },
            FixAction::LogCleanup { path, .. } | FixAction::FileDelete { path } => {
                if is_network_path(path.as_str()) {
                    Some(
                        quote(
                            "Refusing '",
                            path.as_str(),
                            "' — network/UNC paths are not allowed",
                        ),
                    )
                } else if self.path_blocked(path.as_str()) {
                    Some(quote("Path '", path.as_str(), "' is on the blocklist"))
                } else {
                    None
                }
            },
            FixAction::RegistryReset { key_path, .. } => {
                if self.path_blocked(key_path.as_str()) {
                    Some(quote("Registry path '", key_path.as_str(), "' is on the blocklist"))
                } else {
                    None
                }
            },
            FixAction::TaskDisable { task_name } | FixAction::TaskEnable { task_name } => {
                if self.task_blocked(task_name.as_str()) {
                    Some(quote("Scheduled task '", task_name.as_str(), "' is on the blocklist"))
                } else {
                    None
                }
            },
            _ => None,
        }
    }

    /// Whether a service is on the blocklist, in any case.
    pub fn service_blocked(&self, name: &str) -> (r: bool)
        ensures
            r == named_in_any_case(self.blocklist.services@, name@),
    {
        let lower = name.to_lowercase();
        let list = &self.blocklist.services;
        let mut i: usize = 0;
        while i < list.len()
            invariant
                i <= list@.len(),
                list@ == self.blocklist.services@,
                lower@ == unicode_lowercase(name@),
                forall|k: int|
                    0 <= k < i ==> unicode_lowercase((#[trigger] list@[k])@) != unicode_lowercase(
                        name@,
                    ),
            decreases list@.len() - i,
        {
            let entry = list[i].to_lowercase();
            if entry == lower {
                return true;
            }
            i += 1;
        }
        false
    }

    /// Whether a path or registry key lies under a blocklisted one.
    pub fn path_blocked(&self, path: &str) -> (r: bool)
        ensures
            r == under_any(self.blocklist.paths@, path@),
    {
        is_under_any(&self.blocklist.paths, path)
    }

    /// Whether a scheduled task lies under a blocklisted task path.
    pub fn task_blocked(&self, task_name: &str) -> (r: bool)
        ensures
            r == under_any(self.blocklist.tasks@, task_name@),
    {
        is_under_any(&self.blocklist.tasks, task_name)
    }
}

/// The components of a path as one text, for use as an identity.
pub open spec fn normalized_target(target: Seq<char>) -> Seq<char> {
    join(normalized(target), "\\"@)
}

/// The components of a path as one text, for use as an identity.
pub fn normalized_windows_target(target: &str) -> (r: String)
    ensures
        r@ == normalized_target(target@),
{
    let comps = normalize_path_lexical(target);
    joined(&comps, "\\")
}

// ── What the policy promises ──────────────────────────────────────────────────

/// An action type on the blocklist is blocked at any confidence and whatever the whitelist
/// says.
pub proof fn blocklisted_action_is_blocked(
    policy: ExecutionPolicy,
    action: FixAction,
    confidence: Metric,
    percent: Seq<char>,
)
    requires
        listed(policy.blocklist.actions@, action_name(action)),
    ensures
        policy.verdict(action, confidence, percent) is Block,
{
}

/// A blocked target is blocked at any confidence and whatever the whitelist says.
pub proof fn blocklisted_target_is_blocked(
    policy: ExecutionPolicy,
    action: FixAction,
    confidence: Metric,
    percent: Seq<char>,
)
    requires
        policy.block_reason(action) is Some,
    ensures
        policy.verdict(action, confidence, percent) is Block,
{
}

/// What is approved by itself is on the whitelist, on no blocklist, and at or above the
/// threshold.
pub proof fn what_is_approved_was_allowed(
    policy: ExecutionPolicy,
    action: FixAction,
    confidence: Metric,
    percent: Seq<char>,
)
    requires
        policy.verdict(action, confidence, percent) is AutoApprove,
    ensures
        listed(policy.whitelist.actions@, action_name(action)),
        !listed(policy.blocklist.actions@, action_name(action)),
        policy.block_reason(action) is None,
        !less(confidence, policy.execution.confidence_threshold.value),
{
}

/// An action off the whitelist is not approved by itself.
pub proof fn off_the_whitelist_is_not_approved(
    policy: ExecutionPolicy,
    action: FixAction,
    confidence: Metric,
    percent: Seq<char>,
)
    requires
        !listed(policy.whitelist.actions@, action_name(action)),
    ensures
        !(policy.verdict(action, confidence, percent) is AutoApprove),
{
}

/// No file is cleaned up or deleted on another machine.
pub proof fn network_paths_are_blocked(
    policy: ExecutionPolicy,
    path: String,
    days_old: u32,
    confidence: Metric,
    percent: Seq<char>,
)
    requires
        network_path(path@),
    ensures
        policy.verdict(FixAction::FileDelete { path }, confidence, percent) is Block,
        policy.verdict(FixAction::LogCleanup { path, days_old }, confidence, percent) is Block,
{
}

/// A path with components lies within itself.
pub proof fn within_itself(path: Seq<char>)
    requires
        normalized(path).len() > 0,
    ensures
        within(path, path),
{
    assert(normalized(path) =~= normalized(path).take(normalized(path).len() as int));
}

/// What lies within a path that lies within another lies within the other.
pub proof fn within_is_transitive(a: Seq<char>, b: Seq<char>, c: Seq<char>)
    requires
        within(a, b),
        within(b, c),
    ensures
        within(a, c),
{
    let x = normalized(a);
    let y = normalized(b);
    let z = normalized(c);
    assert(z =~= y.take(z.len() as int));
    assert(y =~= x.take(y.len() as int));
    assert(x.take(y.len() as int).take(z.len() as int) =~= x.take(z.len() as int));
}

/// A `.` or an empty piece at the end of a path changes nothing.
pub proof fn dot_pieces_say_nothing(pieces: Seq<Seq<char>>)
    ensures
        resolved(pieces.push("."@)) == resolved(pieces),
        resolved(pieces.push(Seq::empty())) == resolved(pieces),
{
    assert(pieces.push("."@).drop_last() =~= pieces);
    assert(pieces.push(Seq::<char>::empty()).drop_last() =~= pieces);
}

/// Going down into a directory and back up changes nothing, once there is a drive or a
/// root to stand on.
pub proof fn down_and_up_changes_nothing(pieces: Seq<Seq<char>>, name: Seq<char>)
    requires
        name.len() > 0,
        name != "."@,
        name != ".."@,
        resolved(pieces).len() > 0,
    ensures
        resolved(pieces.push(name).push(".."@)) == resolved(pieces),
{
    reveal_strlit(".");
    reveal_strlit("..");
    assert(".."@.len() == 2 && "."@.len() == 1);
    assert(pieces.push(name).push(".."@).drop_last() =~= pieces.push(name));
    assert(pieces.push(name).drop_last() =~= pieces);
    let down = resolved(pieces.push(name));
    assert(down == resolved(pieces).push(unicode_lowercase(name)));
    assert(down.drop_last() =~= resolved(pieces));
}

/// No number of steps up leaves the drive or the root.
pub proof fn steps_up_never_leave_the_root(pieces: Seq<Seq<char>>)
    requires
        resolved(pieces).len() > 0,
    ensures
        resolved(pieces.push(".."@)).len() > 0,
        resolved(pieces.push(".."@))[0] == resolved(pieces)[0],
{
    reveal_strlit(".");
    reveal_strlit("..");
    assert(".."@.len() == 2 && "."@.len() == 1);
    assert(pieces.push(".."@).drop_last() =~= pieces);
}

proof fn lemma_split_back_slashed(s: Seq<char>)
    ensures
        split_on(back_slashed(s), |c: char| separator(c)) == split_on(s, |c: char| separator(c)),
    decreases s.len(),
{
    if s.len() > 0 {
        lemma_split_back_slashed(s.drop_last());
        assert(back_slashed(s).drop_last() =~= back_slashed(s.drop_last()));
    }
}

proof fn lemma_trim_back_slashed(s: Seq<char>)
    ensures
        trim(back_slashed(s)) == back_slashed(trim(s)),
{
    lemma_trim_start_back_slashed(s);
    lemma_trim_end_back_slashed(trim_start(s));
}

proof fn lemma_trim_start_back_slashed(s: Seq<char>)
    ensures
        trim_start(back_slashed(s)) == back_slashed(trim_start(s)),
    decreases s.len(),
{
    if s.len() > 0 {
        lemma_trim_start_back_slashed(s.skip(1));
        assert(back_slashed(s).skip(1) =~= back_slashed(s.skip(1)));
    }
}

proof fn lemma_trim_end_back_slashed(s: Seq<char>)
    ensures
        trim_end(back_slashed(s)) == back_slashed(trim_end(s)),
    decreases s.len(),
{
    if s.len() > 0 {
        lemma_trim_end_back_slashed(s.drop_last());
        assert(back_slashed(s).drop_last() =~= back_slashed(s.drop_last()));
    }
}

/// Whether a name is made of letters and low lines alone.
spec fn plain_name(name: Seq<char>) -> bool {
    forall|i: int| 0 <= i < name.len() ==> ascii_letter(#[trigger] name[i]) || name[i] == '_'
}

proof fn lemma_starts_back_slashed(s: Seq<char>, name: Seq<char>)
    requires
        plain_name(name),
        s.len() >= name.len(),
    ensures
        same_ignoring_ascii_case(back_slashed(s).take(name.len() as int), name)
            == same_ignoring_ascii_case(s.take(name.len() as int), name),
{
    let n = name.len() as int;
    let x = back_slashed(s).take(n);
    let y = s.take(n);
    if same_ignoring_ascii_case(x, name) {
        assert forall|i: int| 0 <= i < n implies #[trigger] ascii_lowercase(y)[i]
            == ascii_lowercase(name)[i] by {
            assert(ascii_lowercase(x)[i] == ascii_lowercase(name)[i]);
            assert(ascii_letter(name[i]) || name[i] == '_');
        }
        assert(ascii_lowercase(y) =~= ascii_lowercase(name));
    }
    if same_ignoring_ascii_case(y, name) {
        assert forall|i: int| 0 <= i < n implies #[trigger] ascii_lowercase(x)[i]
            == ascii_lowercase(name)[i] by {
            assert(ascii_lowercase(y)[i] == ascii_lowercase(name)[i]);
            assert(ascii_letter(name[i]) || name[i] == '_');
        }
        assert(ascii_lowercase(x) =~= ascii_lowercase(name));
    }
}

proof fn lemma_hive_names()
    ensures
        plain_name("HKEY_LOCAL_MACHINE"@),
        plain_name("HKEY_CURRENT_USER"@),
        "HKEY_LOCAL_MACHINE"@.len() == 18,
        "HKEY_CURRENT_USER"@.len() == 17,
        "HKLM:"@ == seq!['H', 'K', 'L', 'M', ':'],
        "HKCU:"@ == seq!['H', 'K', 'C', 'U', ':'],
        "\\\\?\\"@ == seq!['\\', '\\', '?', '\\'],
{
    reveal_strlit("HKEY_LOCAL_MACHINE");
    reveal_strlit("HKEY_CURRENT_USER");
    reveal_strlit("HKLM:");
    reveal_strlit("HKCU:");
    reveal_strlit("\\\\?\\");
    assert("HKLM:"@ =~= seq!['H', 'K', 'L', 'M', ':']);
    assert("HKCU:"@ =~= seq!['H', 'K', 'C', 'U', ':']);
    assert("\\\\?\\"@ =~= seq!['\\', '\\', '?', '\\']);
}

proof fn lemma_hive_back_slashed(s: Seq<char>)
    ensures
        hive_folded(back_slashed(s)) == back_slashed(hive_folded(s)),
{
    lemma_hive_names();
    let machine = "HKEY_LOCAL_MACHINE"@;
    let user = "HKEY_CURRENT_USER"@;
    if s.len() >= machine.len() {
        lemma_starts_back_slashed(s, machine);
    }
    if s.len() >= user.len() {
        lemma_starts_back_slashed(s, user);
    }
    assert(back_slashed(s).len() == s.len());
    assert(hive_folded(back_slashed(s)) =~= back_slashed(hive_folded(s)));
}

/// Which of the two separators a path uses does not matter, but for the extended-length
/// prefix: it counts only where it is written with back slashes.
pub proof fn separators_do_not_matter(p: Seq<char>)
    requires
        "\\\\?\\"@.is_prefix_of(back_slashed(trim(p))) ==> "\\\\?\\"@.is_prefix_of(trim(p)),
    ensures
        normalized(back_slashed(p)) == normalized(p),
{
    lemma_hive_names();
    lemma_trim_back_slashed(p);
    let t = trim(p);
    lemma_hive_back_slashed(t);
    let x = hive_folded(t);
    let y = back_slashed(x);
    let verbatim = "\\\\?\\"@;
    if verbatim.is_prefix_of(x) {
        assert(x[0] == verbatim[0] && x[1] == verbatim[1] && x[2] == verbatim[2] && x[3]
            == verbatim[3]);
        assert(verbatim.is_prefix_of(y)) by {
            assert(y.take(4) =~= verbatim);
        }
        assert(y.skip(4) =~= back_slashed(x.skip(4)));
        lemma_split_back_slashed(x.skip(4));
    } else {
        assert(!verbatim.is_prefix_of(y)) by {
            if verbatim.is_prefix_of(y) {
                assert(y[0] == verbatim[0]);
                assert(x[0] != 'H');
                assert(x == t);
            }
        }
        lemma_split_back_slashed(x);
    }
}

proof fn lemma_trim_end_after(head: Seq<char>, rest: Seq<char>)
    requires
        head.len() > 0,
        !unicode_whitespace(head.last()),
    ensures
        trim_end(head + rest) == head + trim_end(rest),
    decreases rest.len(),
{
    let all = head + rest;
    if rest.len() > 0 {
        assert(all.last() == rest.last());
        assert(all.drop_last() =~= head + rest.drop_last());
        lemma_trim_end_after(head, rest.drop_last());
    } else {
        assert(all =~= head);
        assert(head + trim_end(rest) =~= head);
    }
}

/// The long name of a hive and its drive form are the same place.
pub proof fn hive_alias_is_its_drive_form(rest: Seq<char>)
    ensures
        normalized("HKEY_LOCAL_MACHINE"@ + rest) == normalized("HKLM:"@ + rest),
        normalized("HKEY_CURRENT_USER"@ + rest) == normalized("HKCU:"@ + rest),
{
    lemma_hive_alias("HKEY_LOCAL_MACHINE"@, "HKLM:"@, rest);
    lemma_hive_alias("HKEY_CURRENT_USER"@, "HKCU:"@, rest);
}

proof fn lemma_hive_alias(long: Seq<char>, short: Seq<char>, rest: Seq<char>)
    requires
        (long == "HKEY_LOCAL_MACHINE"@ && short == "HKLM:"@) || (long == "HKEY_CURRENT_USER"@
            && short == "HKCU:"@),
    ensures
        normalized(long + rest) == normalized(short + rest),
{
    lemma_hive_names();
    reveal_strlit("HKEY_LOCAL_MACHINE");
    reveal_strlit("HKEY_CURRENT_USER");
    let machine = "HKEY_LOCAL_MACHINE"@;
    let user = "HKEY_CURRENT_USER"@;
    let end = trim_end(rest);
    assert((long + rest)[0] == 'H' && (short + rest)[0] == 'H');
    lemma_trim_end_after(long, rest);
    lemma_trim_end_after(short, rest);
    let a = long + end;
    let b = short + end;
    assert(trim(long + rest) == a && trim(short + rest) == b);
    assert(a.take(long.len() as int) =~= long);
    assert(a.skip(long.len() as int) =~= end);
    if a.len() >= machine.len() && long == user {
        assert(ascii_lowercase(a.take(machine.len() as int))[5] == 'c');
        assert(ascii_lowercase(machine)[5] == 'l');
    }
    assert(hive_folded(a) == b);
    if b.len() >= machine.len() {
        assert(ascii_lowercase(b.take(machine.len() as int))[2] != 'e');
        assert(ascii_lowercase(machine)[2] == 'e');
    }
    if b.len() >= user.len() {
        assert(ascii_lowercase(b.take(user.len() as int))[2] != 'e');
        assert(ascii_lowercase(user)[2] == 'e');
    }
    assert(hive_folded(b) == b);
}

proof fn lemma_same_case_at(a: Seq<char>, b: Seq<char>, i: int)
    requires
        same_ignoring_ascii_case(a, b),
        0 <= i < a.len(),
    ensures
        a.len() == b.len(),
        ascii_lower(a[i]) == ascii_lower(b[i]),
        unicode_whitespace(a[i]) == unicode_whitespace(b[i]),
        separator(a[i]) == separator(b[i]),
        a[i] == '.' <==> b[i] == '.',
        a[i] == '?' <==> b[i] == '?',
        a[i] == '\\' <==> b[i] == '\\',
{
    assert(ascii_lowercase(a).len() == ascii_lowercase(b).len());
    assert(ascii_lowercase(a)[i] == ascii_lowercase(b)[i]);
}

proof fn lemma_same_case_part(a: Seq<char>, b: Seq<char>, from: int, to: int)
    requires
        same_ignoring_ascii_case(a, b),
        0 <= from <= to <= a.len(),
    ensures
        a.len() == b.len(),
        same_ignoring_ascii_case(a.subrange(from, to), b.subrange(from, to)),
{
    assert(ascii_lowercase(a).len() == ascii_lowercase(b).len());
    assert(ascii_lowercase(a.subrange(from, to)) =~= ascii_lowercase(a).subrange(from, to));
    assert(ascii_lowercase(b.subrange(from, to)) =~= ascii_lowercase(b).subrange(from, to));
}

proof fn lemma_same_case_trim_start(a: Seq<char>, b: Seq<char>)
    requires
        same_ignoring_ascii_case(a, b),
        is_ascii_chars(a) && is_ascii_chars(b),
    ensures
        same_ignoring_ascii_case(trim_start(a), trim_start(b)),
        is_ascii_chars(trim_start(a)) && is_ascii_chars(trim_start(b)),
    decreases a.len(),
{
    assert(ascii_lowercase(a).len() == ascii_lowercase(b).len());
    if a.len() > 0 {
        lemma_same_case_at(a, b, 0);
        lemma_same_case_part(a, b, 1, a.len() as int);
        assert(a.skip(1) =~= a.subrange(1, a.len() as int));
        assert(b.skip(1) =~= b.subrange(1, b.len() as int));
        lemma_same_case_trim_start(a.skip(1), b.skip(1));
    }
}

proof fn lemma_same_case_trim_end(a: Seq<char>, b: Seq<char>)
    requires
        same_ignoring_ascii_case(a, b),
        is_ascii_chars(a) && is_ascii_chars(b),
    ensures
        same_ignoring_ascii_case(trim_end(a), trim_end(b)),
        is_ascii_chars(trim_end(a)) && is_ascii_chars(trim_end(b)),
    decreases a.len(),
{
    assert(ascii_lowercase(a).len() == ascii_lowercase(b).len());
    if a.len() > 0 {
        lemma_same_case_at(a, b, a.len() - 1);
        lemma_same_case_part(a, b, 0, a.len() - 1);
        assert(a.drop_last() =~= a.subrange(0, a.len() - 1));
        assert(b.drop_last() =~= b.subrange(0, b.len() - 1));
        lemma_same_case_trim_end(a.drop_last(), b.drop_last());
    }
}

proof fn lemma_same_case_hive(a: Seq<char>, b: Seq<char>)
    requires
        same_ignoring_ascii_case(a, b),
        is_ascii_chars(a) && is_ascii_chars(b),
    ensures
        same_ignoring_ascii_case(hive_folded(a), hive_folded(b)),
        is_ascii_chars(hive_folded(a)) && is_ascii_chars(hive_folded(b)),
{
    lemma_hive_names();
    assert(ascii_lowercase(a).len() == ascii_lowercase(b).len());
    let x = hive_folded(a);
    let y = hive_folded(b);
    if a.len() >= 17 {
        lemma_same_case_part(a, b, 0, 17);
        lemma_same_case_part(a, b, 17, a.len() as int);
        assert(a.take(17) =~= a.subrange(0, 17) && b.take(17) =~= b.subrange(0, 17));
        assert(a.skip(17) =~= a.subrange(17, a.len() as int));
        assert(b.skip(17) =~= b.subrange(17, b.len() as int));
    }
    if a.len() >= 18 {
        lemma_same_case_part(a, b, 0, 18);
        lemma_same_case_part(a, b, 18, a.len() as int);
        assert(a.take(18) =~= a.subrange(0, 18) && b.take(18) =~= b.subrange(0, 18));
        assert(a.skip(18) =~= a.subrange(18, a.len() as int));
        assert(b.skip(18) =~= b.subrange(18, b.len() as int));
    }
    assert(ascii_lowercase("HKLM:"@ + a.skip(18)) =~= ascii_lowercase("HKLM:"@) + ascii_lowercase(
        a.skip(18),
    ));
    assert(ascii_lowercase("HKLM:"@ + b.skip(18)) =~= ascii_lowercase("HKLM:"@) + ascii_lowercase(
        b.skip(18),
    ));
    assert(ascii_lowercase("HKCU:"@ + a.skip(17)) =~= ascii_lowercase("HKCU:"@) + ascii_lowercase(
        a.skip(17),
    ));
    assert(ascii_lowercase("HKCU:"@ + b.skip(17)) =~= ascii_lowercase("HKCU:"@) + ascii_lowercase(
        b.skip(17),
    ));
}

proof fn lemma_same_case_verbatim(a: Seq<char>, b: Seq<char>)
    requires
        same_ignoring_ascii_case(a, b),
        is_ascii_chars(a) && is_ascii_chars(b),
    ensures
        same_ignoring_ascii_case(without_verbatim(a), without_verbatim(b)),
        is_ascii_chars(without_verbatim(a)) && is_ascii_chars(without_verbatim(b)),
{
    lemma_hive_names();
    let verbatim = "\\\\?\\"@;
    assert(ascii_lowercase(a).len() == ascii_lowercase(b).len());
    if a.len() >= 4 {
        lemma_same_case_at(a, b, 0);
        lemma_same_case_at(a, b, 1);
        lemma_same_case_at(a, b, 2);
        lemma_same_case_at(a, b, 3);
        lemma_same_case_part(a, b, 4, a.len() as int);
        assert(a.skip(4) =~= a.subrange(4, a.len() as int));
        assert(b.skip(4) =~= b.subrange(4, b.len() as int));
        if verbatim.is_prefix_of(a) {
            assert(a.take(4)[0] == a[0] && a.take(4)[1] == a[1] && a.take(4)[2] == a[2] && a.take(
                4,
            )[3] == a[3]);
            assert(b.take(4) =~= verbatim);
        }
        if verbatim.is_prefix_of(b) {
            assert(b.take(4)[0] == b[0] && b.take(4)[1] == b[1] && b.take(4)[2] == b[2] && b.take(
                4,
            )[3] == b[3]);
            assert(a.take(4) =~= verbatim);
        }
    }
}

/// Whether two lists of pieces of ASCII text differ in case at most.
spec fn same_pieces(x: Seq<Seq<char>>, y: Seq<Seq<char>>) -> bool {
    &&& x.len() == y.len()
    &&& forall|i: int|
        0 <= i < x.len() ==> same_ignoring_ascii_case(#[trigger] x[i], y[i]) && is_ascii_chars(x[i])
            && is_ascii_chars(y[i])
}

proof fn lemma_same_case_split(a: Seq<char>, b: Seq<char>)
    requires
        same_ignoring_ascii_case(a, b),
        is_ascii_chars(a) && is_ascii_chars(b),
    ensures
        same_pieces(split_on(a, |c: char| separator(c)), split_on(b, |c: char| separator(c))),
        split_on(a, |c: char| separator(c)).len() > 0,
    decreases a.len(),
{
    let sep = |c: char| separator(c);
    assert(ascii_lowercase(a).len() == ascii_lowercase(b).len());
    if a.len() > 0 {
        let n = a.len() - 1;
        lemma_same_case_at(a, b, n);
        lemma_same_case_part(a, b, 0, n);
        assert(a.drop_last() =~= a.subrange(0, n));
        assert(b.drop_last() =~= b.subrange(0, n));
        lemma_same_case_split(a.drop_last(), b.drop_last());
        let x = split_on(a.drop_last(), sep);
        let y = split_on(b.drop_last(), sep);
        assert(same_ignoring_ascii_case(x[x.len() - 1], y[x.len() - 1]));
        assert(ascii_lowercase(x.last().push(a.last())) =~= ascii_lowercase(x.last()).push(
            ascii_lower(a.last()),
        ));
        assert(ascii_lowercase(y.last().push(b.last())) =~= ascii_lowercase(y.last()).push(
            ascii_lower(b.last()),
        ));
        assert(a[n] == a.last() && b[n] == b.last());
    }
}

proof fn lemma_same_case_resolved(x: Seq<Seq<char>>, y: Seq<Seq<char>>)
    requires
        same_pieces(x, y),
    ensures
        resolved(x) == resolved(y),
    decreases x.len(),
{
    if x.len() > 0 {
        let n = x.len() - 1;
        let p = x[n];
        let q = y[n];
        assert(same_ignoring_ascii_case(p, q));
        assert forall|i: int| 0 <= i < n implies same_ignoring_ascii_case(
            #[trigger] x.drop_last()[i],
            y.drop_last()[i],
        ) && is_ascii_chars(x.drop_last()[i]) && is_ascii_chars(y.drop_last()[i]) by {
            assert(same_ignoring_ascii_case(x[i], y[i]));
        }
        lemma_same_case_resolved(x.drop_last(), y.drop_last());
        reveal_strlit(".");
        reveal_strlit("..");
        assert(ascii_lowercase(p).len() == ascii_lowercase(q).len());
        if p.len() > 0 {
            lemma_same_case_at(p, q, 0);
        }
        if p.len() > 1 {
            lemma_same_case_at(p, q, 1);
        }
        assert(p == "."@ <==> p.len() == 1 && p[0] == '.') by {
            if p.len() == 1 && p[0] == '.' {
                assert(p =~= "."@);
            }
        }
        assert(q == "."@ <==> q.len() == 1 && q[0] == '.') by {
            if q.len() == 1 && q[0] == '.' {
                assert(q =~= "."@);
            }
        }
        assert(p == ".."@ <==> p.len() == 2 && p[0] == '.' && p[1] == '.') by {
            if p.len() == 2 && p[0] == '.' && p[1] == '.' {
                assert(p =~= ".."@);
            }
        }
        assert(q == ".."@ <==> q.len() == 2 && q[0] == '.' && q[1] == '.') by {
            if q.len() == 2 && q[0] == '.' && q[1] == '.' {
                assert(q =~= ".."@);
            }
        }
    }
}

/// The case of its letters does not matter in a path of ASCII characters.
pub proof fn case_does_not_matter(a: Seq<char>, b: Seq<char>)
    requires
        is_ascii_chars(a),
        is_ascii_chars(b),
        same_ignoring_ascii_case(a, b),
    ensures
        normalized(a) == normalized(b),
{
    lemma_same_case_trim_start(a, b);
    lemma_same_case_trim_end(trim_start(a), trim_start(b));
    let s = trim(a);
    let t = trim(b);
    lemma_same_case_hive(s, t);
    lemma_same_case_verbatim(hive_folded(s), hive_folded(t));
    let x = without_verbatim(hive_folded(s));
    let y = without_verbatim(hive_folded(t));
    lemma_same_case_split(x, y);
    lemma_same_case_resolved(path_pieces(a), path_pieces(b));
}

// ── What each list forbids ────────────────────────────────────────────────────

/// A service that a blocklist entry names, in any case, is neither restarted nor stopped nor
/// started: each is blocked at any confidence and whatever the whitelist says.
pub proof fn blocklisted_service_is_left_alone(
    policy: ExecutionPolicy,
    service_name: String,
    i: int,
    confidence: Metric,
    percent: Seq<char>,
)
    requires
        0 <= i < policy.blocklist.services@.len(),
        unicode_lowercase(policy.blocklist.services@[i]@) == unicode_lowercase(service_name@),
    ensures
        policy.verdict(FixAction::ServiceRestart { service_name }, confidence, percent) is Block,
        policy.verdict(FixAction::ServiceStop { service_name }, confidence, percent) is Block,
        policy.verdict(FixAction::ServiceStart { service_name }, confidence, percent) is Block,
{
    assert(named_in_any_case(policy.blocklist.services@, service_name@));
}

/// A file or registry key whose components start with those of a blocklisted path is neither
/// cleaned up nor deleted nor reset: each is blocked at any confidence and whatever the
/// whitelist says.
pub proof fn blocklisted_path_is_left_alone(
    policy: ExecutionPolicy,
    path: String,
    days_old: u32,
    reset: FixAction,
    i: int,
    confidence: Metric,
    percent: Seq<char>,
)
    requires
        0 <= i < policy.blocklist.paths@.len(),
        normalized(policy.blocklist.paths@[i]@).len() > 0,
        normalized(policy.blocklist.paths@[i]@).len() <= normalized(path@).len(),
        forall|k: int|
            0 <= k < normalized(policy.blocklist.paths@[i]@).len() ==> normalized(path@)[k]
                == #[trigger] normalized(policy.blocklist.paths@[i]@)[k],
        reset matches FixAction::RegistryReset { key_path, .. } && key_path == path,
    ensures
        policy.verdict(FixAction::FileDelete { path }, confidence, percent) is Block,
        policy.verdict(FixAction::LogCleanup { path, days_old }, confidence, percent) is Block,
        policy.verdict(reset, confidence, percent) is Block,
{
    let a = normalized(policy.blocklist.paths@[i]@);
    assert(a =~= normalized(path@).take(a.len() as int));
    assert(within(path@, policy.blocklist.paths@[i]@));
}

/// A scheduled task whose components start with those of a blocklisted one is neither
/// disabled nor enabled: each is blocked at any confidence and whatever the whitelist says.
pub proof fn blocklisted_task_is_left_alone(
    policy: ExecutionPolicy,
    task_name: String,
    i: int,
    confidence: Metric,
    percent: Seq<char>,
)
    requires
        0 <= i < policy.blocklist.tasks@.len(),
        normalized(policy.blocklist.tasks@[i]@).len() > 0,
        normalized(policy.blocklist.tasks@[i]@).len() <= normalized(task_name@).len(),
        forall|k: int|
            0 <= k < normalized(policy.blocklist.tasks@[i]@).len() ==> normalized(task_name@)[k]
                == #[trigger] normalized(policy.blocklist.tasks@[i]@)[k],
    ensures
        policy.verdict(FixAction::TaskDisable { task_name }, confidence, percent) is Block,
        policy.verdict(FixAction::TaskEnable { task_name }, confidence, percent) is Block,
{
    let a = normalized(policy.blocklist.tasks@[i]@);
    assert(a =~= normalized(task_name@).take(a.len() as int));
    assert(within(task_name@, policy.blocklist.tasks@[i]@));
}

/// A file on another machine, whose path starts with two separators of either kind after any
/// white space, is neither cleaned up nor deleted.
pub proof fn files_of_other_machines_are_left_alone(
    policy: ExecutionPolicy,
    path: String,
    days_old: u32,
    at: int,
    confidence: Metric,
    percent: Seq<char>,
)
    requires
        0 <= at,
        at + 1 < path@.len(),
        forall|k: int| 0 <= k < at ==> unicode_whitespace(#[trigger] path@[k]),
        path@[at] == '\\' || path@[at] == '/',
        path@[at + 1] == '\\' || path@[at + 1] == '/',
    ensures
        policy.verdict(FixAction::FileDelete { path }, confidence, percent) is Block,
        policy.verdict(FixAction::LogCleanup { path, days_old }, confidence, percent) is Block,
{
    lemma_trim_start_from(path@, at);
    assert(!unicode_whitespace(path@[at]));
    assert(trim_start(path@) == path@.skip(at));
}

proof fn lemma_trim_start_from(s: Seq<char>, at: int)
    requires
        0 <= at < s.len(),
        forall|k: int| 0 <= k < at ==> unicode_whitespace(#[trigger] s[k]),
        !unicode_whitespace(s[at]),
    ensures
        trim_start(s) == s.skip(at),
    decreases at,
{
    if at == 0 {
        assert(s.skip(0) =~= s);
    } else {
        assert(unicode_whitespace(s[0]));
        let rest = s.skip(1);
        assert forall|k: int| 0 <= k < at - 1 implies unicode_whitespace(#[trigger] rest[k]) by {
            assert(unicode_whitespace(s[k + 1]));
        }
        assert(rest[at - 1] == s[at]);
        lemma_trim_start_from(rest, at - 1);
        assert(rest.skip(at - 1) =~= s.skip(at));
    }
}

/// An action type that the blocklist lists by its name is blocked, and the verdict says so; a
/// confidence below the threshold blocks as well.
pub proof fn listed_type_or_low_confidence_is_blocked(
    policy: ExecutionPolicy,
    action: FixAction,
    i: int,
    confidence: Metric,
    percent: Seq<char>,
)
    ensures
        0 <= i < policy.blocklist.actions@.len() && policy.blocklist.actions@[i]@ == action_name(
            action,
        ) ==> policy.verdict(action, confidence, percent) == VerdictModel::Block(
            "Action '"@ + policy.blocklist.actions@[i]@ + "' is disabled by policy"@,
        ),
        less(confidence, policy.execution.confidence_threshold.value) ==> policy.verdict(
            action,
            confidence,
            percent,
        ) is Block,
{
}

/// What no list forbids and is sure enough is not blocked: it runs by itself where the
/// whitelist lists its type, and waits for the user where it does not.
pub proof fn what_no_list_forbids_is_not_blocked(
    policy: ExecutionPolicy,
    action: FixAction,
    confidence: Metric,
    percent: Seq<char>,
)
    requires
        forall|i: int|
            0 <= i < policy.blocklist.actions@.len() ==> (
            #[trigger] policy.blocklist.actions@[i])@ != action_name(action),
        !less(confidence, policy.execution.confidence_threshold.value),
        match action {
            FixAction::ServiceRestart { service_name: name }
            | FixAction::ServiceStop { service_name: name }
            | FixAction::ServiceStart { service_name: name } => forall|i: int|
                0 <= i < policy.blocklist.services@.len() ==> unicode_lowercase(
                    (#[trigger] policy.blocklist.services@[i])@,
                ) != unicode_lowercase(name@),
            FixAction::TaskDisable { task_name: name } | FixAction::TaskEnable {
                task_name: name,
            } => forall|i: int|
                0 <= i < policy.blocklist.tasks@.len() ==> !within(
                    name@,
                    (#[trigger] policy.blocklist.tasks@[i])@,
                ),
            FixAction::LogCleanup { path, .. } | FixAction::FileDelete { path } => {
                &&& !network_path(path@)
                &&& forall|i: int|
                    0 <= i < policy.blocklist.paths@.len() ==> !within(
                        path@,
                        (#[trigger] policy.blocklist.paths@[i])@,
                    )
            },
            FixAction::RegistryReset { key_path, .. } => forall|i: int|
                0 <= i < policy.blocklist.paths@.len() ==> !within(
                    key_path@,
                    (#[trigger] policy.blocklist.paths@[i])@,
                ),
            _ => true,
        },
    ensures
        (exists|i: int|
            0 <= i < policy.whitelist.actions@.len() && (
            #[trigger] policy.whitelist.actions@[i])@ == action_name(action)) ==> policy.verdict(
            action,
            confidence,
            percent,
        ) is AutoApprove,
        (forall|i: int|
            0 <= i < policy.whitelist.actions@.len() ==> (
            #[trigger] policy.whitelist.actions@[i])@ != action_name(action)) ==> policy.verdict(
            action,
            confidence,
            percent,
        ) is RequireApproval,
{
}

/// What lies under a path is what starts with its components, and nothing lies under a path
/// without any.
pub proof fn under_is_starting_with_the_components(path: Seq<char>, ancestor: Seq<char>)
    ensures
        within(path, ancestor) <==> {
            &&& 0 < normalized(ancestor).len() <= normalized(path).len()
            &&& forall|k: int|
                0 <= k < normalized(ancestor).len() ==> normalized(path)[k]
                    == #[trigger] normalized(ancestor)[k]
        },
{
    let a = normalized(ancestor);
    let p = normalized(path);
    if 0 < a.len() <= p.len() && forall|k: int| 0 <= k < a.len() ==> p[k] == #[trigger] a[k] {
        assert(a =~= p.take(a.len() as int));
    }
    if within(path, ancestor) {
        assert(a == p.take(a.len() as int));
    }
}

/// Each plain piece of a path adds one component, its lower case, after those before it.
pub proof fn plain_piece_adds_its_lower_case(pieces: Seq<Seq<char>>, name: Seq<char>)
    requires
        name.len() > 0,
        name != "."@,
        name != ".."@,
    ensures
        resolved(pieces.push(name)) == resolved(pieces).push(unicode_lowercase(name)),
{
    assert(pieces.push(name).drop_last() =~= pieces);
}

/// The policy files' name of each action type.
pub proof fn types_go_by_their_names(a: FixAction)
    ensures
        a is ServiceRestart ==> action_name(a) == "service_restart"@,
        a is ServiceStop ==> action_name(a) == "service_stop"@,
        a is ServiceStart ==> action_name(a) == "service_start"@,
        a is LogCleanup ==> action_name(a) == "log_cleanup"@,
        a is DiskCleanup ==> action_name(a) == "disk_cleanup"@,
        a is PowerShellDiagnostic ==> action_name(a) == "powershell_diagnostic"@,
        a is TaskDisable ==> action_name(a) == "task_disable"@,
        a is TaskEnable ==> action_name(a) == "task_enable"@,
        a is RegistryReset ==> action_name(a) == "registry_reset"@,
        a is NetworkDiagnostic ==> action_name(a) == "network_diagnostic"@,
        a is DriverDisable ==> action_name(a) == "driver_disable"@,
        a is DriverEnable ==> action_name(a) == "driver_enable"@,
        a is SoftwareUninstall ==> action_name(a) == "software_uninstall"@,
        a is BcdEdit ==> action_name(a) == "bcd_edit"@,
        a is ProcessKill ==> action_name(a) == "process_kill"@,
        a is FileDelete ==> action_name(a) == "file_delete"@,
        a is FirewallEnable ==> action_name(a) == "firewall_enable"@,
        a is DefenderSignatureUpdate ==> action_name(a) == "defender_signature_update"@,
        a is DefenderRealtimeEnable ==> action_name(a) == "defender_realtime_enable"@,
        a is SfcScan ==> action_name(a) == "sfc_scan"@,
        a is DismRestoreHealth ==> action_name(a) == "dism_restore_health"@,
        a is StartupSet ==> action_name(a) == "startup_set"@,
{
}

/// Where its target blocks an action, the reason names the target as it was given.
pub proof fn reason_names_the_target(
    policy: ExecutionPolicy,
    action: FixAction,
    confidence: Metric,
    percent: Seq<char>,
)
    requires
        forall|i: int|
            0 <= i < policy.blocklist.actions@.len() ==> (
            #[trigger] policy.blocklist.actions@[i])@ != action_name(action),
        !less(confidence, policy.execution.confidence_threshold.value),
        policy.verdict(action, confidence, percent) is Block,
    ensures
        ({
            let reason = policy.verdict(action, confidence, percent)->Block_0;
            match action {
                FixAction::ServiceRestart { service_name: name }
                | FixAction::ServiceStop { service_name: name }
                | FixAction::ServiceStart { service_name: name } => reason == "Service '"@ + name@
                    + "' is on the blocklist"@,
                FixAction::TaskDisable { task_name: name } | FixAction::TaskEnable {
                    task_name: name,
                } => reason == "Scheduled task '"@ + name@ + "' is on the blocklist"@,
                FixAction::LogCleanup { path, .. } | FixAction::FileDelete { path } => reason
                    == "Refusing '"@ + path@ + "' — network/UNC paths are not allowed"@ || reason
                    == "Path '"@ + path@ + "' is on the blocklist"@,
                FixAction::RegistryReset { key_path, .. } => reason == "Registry path '"@
                    + key_path@ + "' is on the blocklist"@,
                _ => false,
            }
        }),
{
}

// ── What the policy answers ───────────────────────────────────────────────────

/// Restarting, stopping and starting are each refused for a service that stands on the blocklist
/// under any case, and for no other.
pub proof fn every_change_of_a_listed_service_is_refused(
    policy: &ExecutionPolicy,
    service_name: String,
    restart: Option<String>,
    stop: Option<String>,
    start: Option<String>,
    i: int,
)
    requires
        call_ensures(
            ExecutionPolicy::blocked_reason,
            (policy, &FixAction::ServiceRestart { service_name }),
            restart,
        ),
        call_ensures(
            ExecutionPolicy::blocked_reason,
            (policy, &FixAction::ServiceStop { service_name }),
            stop,
        ),
        call_ensures(
            ExecutionPolicy::blocked_reason,
            (policy, &FixAction::ServiceStart { service_name }),
            start,
        ),
    ensures
        0 <= i < policy.blocklist.services@.len() && unicode_lowercase(
            policy.blocklist.services@[i]@,
        ) == unicode_lowercase(service_name@) ==> restart is Some && stop is Some && start is Some,
        (forall|k: int|
            0 <= k < policy.blocklist.services@.len() ==> unicode_lowercase(
                (#[trigger] policy.blocklist.services@[k])@,
            ) != unicode_lowercase(service_name@)) ==> restart is None && stop is None
            && start is None,
{
    if 0 <= i < policy.blocklist.services@.len() && unicode_lowercase(
        policy.blocklist.services@[i]@,
    ) == unicode_lowercase(service_name@) {
        assert(named_in_any_case(policy.blocklist.services@, service_name@));
    }
}

/// What is refused for its target is blocked, at any confidence and whatever the whitelist says.
pub proof fn refused_target_is_blocked(
    policy: &ExecutionPolicy,
    action: &FixAction,
    confidence: &Confidence,
    reason: Option<String>,
    verdict: Verdict,
)
    requires
        call_ensures(ExecutionPolicy::blocked_reason, (policy, action), reason),
        call_ensures(ExecutionPolicy::evaluate, (policy, action, confidence), verdict),
    ensures
        reason is Some ==> verdict is Block,
        verdict is AutoApprove ==> reason is None,
{
}

/// A service is on the blocklist where its name is, in any case.
pub proof fn service_is_listed_in_any_case(
    policy: &ExecutionPolicy,
    name: &str,
    r: bool,
    i: int,
)
    requires
        call_ensures(ExecutionPolicy::service_blocked, (policy, name), r),
    ensures
        0 <= i < policy.blocklist.services@.len() && unicode_lowercase(
            policy.blocklist.services@[i]@,
        ) == unicode_lowercase(name@) ==> r,
        policy.blocklist.services@.len() == 0 ==> !r,
{
    if 0 <= i < policy.blocklist.services@.len() && unicode_lowercase(
        policy.blocklist.services@[i]@,
    ) == unicode_lowercase(name@) {
        assert(named_in_any_case(policy.blocklist.services@, name@));
    }
}

/// Neither white space around a path nor the extended-length prefix says anything about where it
/// leads, and a registry hive may be written by its long name in any case.
pub proof fn spelling_of_a_path_says_nothing(a: Seq<char>, b: Seq<char>, rest: Seq<char>)
    ensures
        trim(a) == trim(b) ==> normalized(a) == normalized(b),
        without_verbatim("\\\\?\\"@ + rest) == rest,
        !"\\\\?\\"@.is_prefix_of(rest) ==> without_verbatim(rest) == rest,
        same_ignoring_ascii_case(a, "HKEY_LOCAL_MACHINE"@) ==> hive_folded(a + rest) == "HKLM:"@
            + rest,
        same_ignoring_ascii_case(a, "HKEY_CURRENT_USER"@) ==> hive_folded(a + rest) == "HKCU:"@
            + rest,
        rest.len() < 17 ==> hive_folded(rest) == rest,
{
    what_follows_a_prefix("\\\\?\\"@, rest, rest);
    reveal_strlit("HKEY_LOCAL_MACHINE");
    reveal_strlit("HKEY_CURRENT_USER");
    let machine = "HKEY_LOCAL_MACHINE"@;
    let user = "HKEY_CURRENT_USER"@;
    assert(machine.len() == 18 && user.len() == 17);
    if same_ignoring_ascii_case(a, machine) {
        assert(ascii_lowercase(a).len() == ascii_lowercase(machine).len());
        assert((a + rest).take(18) =~= a);
        assert((a + rest).skip(18) =~= rest);
    }
    if same_ignoring_ascii_case(a, user) {
        let p = a + rest;
        assert(ascii_lowercase(a).len() == ascii_lowercase(user).len());
        assert(p.take(17) =~= a);
        assert(p.skip(17) =~= rest);
        if p.len() >= 18 && same_ignoring_ascii_case(p.take(18), machine) {
            assert(ascii_lowercase(p.take(18))[5] == ascii_lower(p[5]));
            assert(ascii_lowercase(a)[5] == ascii_lower(a[5]));
            assert(ascii_lowercase(user)[5] == ascii_lower('C'));
            assert(ascii_lowercase(machine)[5] == ascii_lower('L'));
            assert(p[5] == a[5]);
            assert(false);
        }
    }
}

/// `..` goes back one component but never past the first; empty pieces and `.` say nothing.
pub proof fn pieces_are_resolved_in_turn(pieces: Seq<Seq<char>>)
    ensures
        resolved(pieces.push(Seq::empty())) == resolved(pieces),
        resolved(pieces.push("."@)) == resolved(pieces),
        resolved(pieces).len() > 1 ==> resolved(pieces.push(".."@)) == resolved(pieces).drop_last(),
        resolved(pieces).len() <= 1 ==> resolved(pieces.push(".."@)) == resolved(pieces),
{
    reveal_strlit(".");
    reveal_strlit("..");
    assert(".."@.len() == 2 && "."@.len() == 1);
    assert(pieces.push(Seq::empty()).drop_last() =~= pieces);
    assert(pieces.push("."@).drop_last() =~= pieces);
    assert(pieces.push(".."@).drop_last() =~= pieces);
}

} // verus!
