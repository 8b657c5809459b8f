//! Running a fix: how long it may take, what its outcome is recorded as, and what the state
//! becomes once it is.

use crate::models::{ExecutionResult, FixAction, RegistryUndo};
use crate::metric::Metric;
use crate::proto::{ExecutionSummary, PendingApproval};
use crate::routing::{cat, ExecJob};
use crate::state::{
    RECENT_CAP, SvcState, others_stay_in_flight, problem_added, push_execution, push_problem,
    pushed, recounts, remove_in_flight, settle, settled, summarizes, without,
};
use crate::text::{decimal, decimal_text, opt_view};
use vstd::prelude::*;
use vstd::string::*;

verus! {

/// Seconds that an action may take before it is abandoned.
pub const DEFAULT_TIMEOUT_SECS: u64 = 600;

/// Whether an action is one of the long repairs of system files.
pub open spec fn long_repair(action: FixAction) -> bool {
    action is SfcScan || action is DismRestoreHealth
}

/// The seconds that an action may take: a repair of system files has its own limit.
pub fn exec_timeout(action: &FixAction, repair_secs: u64) -> (r: u64)
    ensures
        r == (if long_repair(*action) {
            repair_secs
        } else {
            DEFAULT_TIMEOUT_SECS
        }),
{
    match action {
        FixAction::SfcScan | FixAction::DismRestoreHealth => repair_secs,
        _ => DEFAULT_TIMEOUT_SECS,
    }
}

/// How a run ended.
pub enum RunEnd {
    Finished(ExecutionResult),
    Panicked,
    TimedOut,
}

/// Whether a result is a failure that stands in for a run that never finished.
pub open spec fn stands_in(r: ExecutionResult, label: Seq<char>, output: Seq<char>) -> bool {
    r.action@ == label && !r.success && r.output@ == output && r.undo is None
}

/// The result of a run, and whether it stands in for one that never finished.
pub fn run_result(label: &str, end: RunEnd, limit_secs: u64) -> (r: (ExecutionResult, bool))
    ensures
        match end {
            RunEnd::Finished(result) => r.0 == result && !r.1,
            RunEnd::Panicked => stands_in(r.0, label@, "execution task panicked"@) && r.1,
            RunEnd::TimedOut => r.1 && stands_in(
                r.0,
                label@,
                "execution exceeded "@ + decimal((limit_secs / 60) as nat)
                    + "m and was abandoned"@,
            ),
        },
{
    match end {
        RunEnd::Finished(result) => (result, false),
        RunEnd::Panicked => (
            ExecutionResult {
                action: label.to_owned(),
                success: false,
                output: "execution task panicked".to_owned(),
                undo: None,
            },
            true,
        ),
        RunEnd::TimedOut => {
            let minutes = decimal_text(limit_secs / 60);
            let mut output = cat("execution exceeded ", minutes.as_str());
            output.append("m and was abandoned");
            (ExecutionResult { action: label.to_owned(), success: false, output, undo: None }, true)
        },
    }
}

/// What recording an outcome gave: the number of the execution, and of its undo.
#[derive(Debug, Clone, Copy, PartialEq, Eq, Structural)]
pub struct Commit {
    pub execution_id: i64,
    pub undo_id: Option<i64>,
}

/// An outcome, and how its recording went.
pub struct Recorded {
    pub result: ExecutionResult,
    /// What recording it gave, where that went well.
    pub commit: Option<Commit>,
    /// The queue of approvals has to be read again.
    pub refresh_pending: bool,
}

/// What is left to do to record an outcome.
pub enum RecordStep {
    Done(Recorded),
    /// A registry value was changed and its undo could not be kept: restore it at once.
    Restore(ExecutionResult, RegistryUndo, String),
}

/// Whether an outcome goes back to the queue of approvals: the run never finished, and it
/// ran on an approval.
pub open spec fn requeued(stands_in: bool, approval_id: Option<u64>) -> bool {
    stands_in && approval_id is Some
}

/// Whether an outcome goes back to the queue of approvals.
pub fn requeue_approval(stands_in: bool, approval_id: Option<u64>) -> (r: bool)
    ensures
        r == requeued(stands_in, approval_id),
{
    stands_in && approval_id.is_some()
}

/// Go on after an outcome was to be recorded. A registry value that was changed while its
/// undo could not be kept is to be restored; any other failure is added to the output.
pub fn after_record(
    result: ExecutionResult,
    action: &FixAction,
    requeue: bool,
    recorded: Result<Commit, String>,
) -> (r: RecordStep)
    ensures
        r is Done && action is RegistryReset && r->Done_0.result.success
            ==> r->Done_0.commit is Some,
        match recorded {
            Ok(commit) => {
                &&& r is Done
                &&& r->Done_0.result == result
                &&& r->Done_0.commit == Some(commit)
                &&& r->Done_0.refresh_pending == requeue
            },
            Err(e) => if result.success && action is RegistryReset {
                match result.undo {
                    Some(undo) => {
                        &&& r is Restore
                        &&& r->Restore_0.action == result.action
                        &&& r->Restore_0.success
                        &&& r->Restore_0.output == result.output
                        &&& r->Restore_0.undo is None
                        &&& r->Restore_1 == undo
                        &&& r->Restore_2 == e
                    },
                    None => {
                        &&& r is Done
                        &&& r->Done_0.commit is None
                        &&& !r->Done_0.refresh_pending
                        &&& r->Done_0.result.action == result.action
                        &&& !r->Done_0.result.success
                        &&& r->Done_0.result.undo is None
                        &&& r->Done_0.result.output@
                            == "Registry reset ran, but no exact undo was available ("@ + e@
                            + "); the approved action was retained for recovery"@
                    },
                }
            } else {
                &&& r is Done
                &&& r->Done_0.commit is None
                &&& !r->Done_0.refresh_pending
                &&& r->Done_0.result.action == result.action
                &&& r->Done_0.result.success == result.success
                &&& r->Done_0.result.undo == result.undo
                &&& r->Done_0.result.output@ == result.output@
                    + "; execution audit and approval transition failed: "@ + e@
            },
        },
{
    match recorded {
        Ok(commit) => RecordStep::Done(
            Recorded { result, commit: Some(commit), refresh_pending: requeue },
        ),
        Err(e) => {
            if result.success && matches!(action, FixAction::RegistryReset { .. }) {
                match result.undo {
                    Some(undo) => RecordStep::Restore(
                        ExecutionResult {
                            action: result.action,
                            success: true,
                            output: result.output,
                            undo: None,
                        },
                        undo,
                        e,
                    ),
                    None => {
                        let mut output = cat(
                            "Registry reset ran, but no exact undo was available (",
                            e.as_str(),
                        );
                        output.append("); the approved action was retained for recovery");
                        RecordStep::Done(
                            Recorded {
                                result: ExecutionResult {
                                    action: result.action,
                                    success: false,
                                    output,
                                    undo: None,
                                },
                                commit: None,
                                refresh_pending: false,
                            },
                        )
                    },
                }
            } else {
                let mut output = result.output;
                output.append("; execution audit and approval transition failed: ");
                output.append(e.as_str());
                RecordStep::Done(
                    Recorded {
                        result: ExecutionResult {
                            action: result.action,
                            success: result.success,
                            output,
                            undo: result.undo,
                        },
                        commit: None,
                        refresh_pending: false,
                    },
                )
            }
        },
    }
}

/// What is left to do once a registry value was to be restored.
pub enum RestoreStep {
    /// Record the outcome, which is a failure now, and whether the approval goes back to
    /// the queue.
    RecordAgain(ExecutionResult, bool),
    Done(Recorded),
}

/// Go on after a registry value was to be restored. A restored one is recorded as a
/// failure, and its approval goes back to the queue.
pub fn after_restore(
    result: ExecutionResult,
    commit_error: &str,
    approval_id: Option<u64>,
    restored: Result<String, String>,
) -> (r: RestoreStep)
    ensures
        r is Done ==> !r->Done_0.result.success,
        r is RecordAgain ==> !r->RecordAgain_0.success,
        match restored {
            Ok(output) => {
                &&& r is RecordAgain
                &&& r->RecordAgain_1 == approval_id is Some
                &&& r->RecordAgain_0.action == result.action
                &&& !r->RecordAgain_0.success
                &&& r->RecordAgain_0.undo is None
                &&& r->RecordAgain_0.output@
                    == "Registry reset was rolled back because its undo could not be stored ("@
                    + commit_error@ + "): "@ + output@
            },
            Err(e) => {
                &&& r is Done
                &&& r->Done_0.commit is None
                &&& !r->Done_0.refresh_pending
                &&& r->Done_0.result.action == result.action
                &&& !r->Done_0.result.success
                &&& r->Done_0.result.undo is None
                &&& r->Done_0.result.output@
                    == "Registry reset ran, but its undo could not be stored ("@ + commit_error@
                    + ") and automatic rollback failed ("@ + e@
                    + "); the approved action was retained for recovery"@
            },
        },
{
    match restored {
        Ok(done) => {
            let mut output = cat(
                "Registry reset was rolled back because its undo could not be stored (",
                commit_error,
            );
            output.append("): ");
            output.append(done.as_str());
            RestoreStep::RecordAgain(
                ExecutionResult { action: result.action, success: false, output, undo: None },
                approval_id.is_some(),
            )
        },
        Err(e) => {
            let mut output = cat(
                "Registry reset ran, but its undo could not be stored (",
                commit_error,
            );
            output.append(") and automatic rollback failed (");
            output.append(e.as_str());
            output.append("); the approved action was retained for recovery");
            RestoreStep::Done(
                Recorded {
                    result: ExecutionResult {
                        action: result.action,
                        success: false,
                        output,
                        undo: None,
                    },
                    commit: None,
                    refresh_pending: false,
                },
            )
        },
    }
}

/// The end of a registry value that was restored.
pub fn after_second_record(
    result: ExecutionResult,
    requeue: bool,
    recorded: Result<Commit, String>,
) -> (r: Recorded)
    ensures
        match recorded {
            Ok(commit) => r.result == result && r.commit == Some(commit) && r.refresh_pending
                == requeue,
            Err(e) => {
                &&& r.commit is None
                &&& !r.refresh_pending
                &&& r.result.action == result.action
                &&& r.result.success == result.success
                &&& r.result.undo == result.undo
                &&& r.result.output@ == result.output@
                    + "; the rollback audit could not be stored: "@ + e@
            },
        },
{
    match recorded {
        Ok(commit) => Recorded { result, commit: Some(commit), refresh_pending: requeue },
        Err(e) => {
            let mut output = result.output;
            output.append("; the rollback audit could not be stored: ");
            output.append(e.as_str());
            Recorded {
                result: ExecutionResult {
                    action: result.action,
                    success: result.success,
                    output,
                    undo: result.undo,
                },
                commit: None,
                refresh_pending: false,
            }
        },
    }
}

/// The outcome of one job, to be folded into the state.
pub struct ExecOutcome {
    pub key: String,
    pub label: String,
    /// The executed action, as it is listed.
    pub exec_action: String,
    pub success: bool,
    pub output: String,
    pub diagnosis: String,
    pub confidence: Metric,
    pub reason: Option<String>,
    /// The undo that a change of a registry value can be taken back with.
    pub undo_id: Option<i64>,
    /// The undo that was used, and is no longer offered.
    pub cleared_undo_id: Option<i64>,
    /// The queue of approvals has to be read again.
    pub refresh_pending: bool,
}

/// The outcome of a job, once it is recorded.
pub fn exec_outcome(job: ExecJob, end: Recorded) -> (r: ExecOutcome)
    ensures
        r.key == job.key,
        r.label == job.label,
        r.exec_action == end.result.action,
        r.success == end.result.success,
        r.output == end.result.output,
        r.diagnosis == job.diagnosis,
        r.confidence == job.confidence,
        r.reason == job.reason,
        r.undo_id == (match end.commit {
            Some(commit) => commit.undo_id,
            None => None,
        }),
        r.cleared_undo_id is None,
        r.refresh_pending == end.refresh_pending,
{
    ExecOutcome {
        key: job.key,
        label: job.label,
        exec_action: end.result.action,
        success: end.result.success,
        output: end.result.output,
        diagnosis: job.diagnosis,
        confidence: job.confidence,
        reason: job.reason,
        undo_id: match end.commit {
            Some(commit) => commit.undo_id,
            None => None,
        },
        cleared_undo_id: None,
        refresh_pending: end.refresh_pending,
    }
}

/// The outcome of a registry value's undo that the user asked for.
pub fn undo_outcome(
    key_path: &str,
    value_name: &str,
    id: i64,
    restored: Result<String, String>,
) -> (r: ExecOutcome)
    ensures
        r.key@.len() == 0,
        r.label@ == "Undo registry "@ + key_path@ + "\\"@ + value_name@,
        r.exec_action@ == r.label@,
        r.success == restored is Ok,
        r.output == (match restored {
            Ok(text) => text,
            Err(text) => text,
        }),
        r.diagnosis@ == "User-requested undo of a registry change"@,
        r.confidence == crate::routing::certain(),
        opt_view(r.reason) == Some("undo by user"@),
        r.undo_id is None,
        r.cleared_undo_id == (if restored is Ok {
            Some(id)
        } else {
            None
        }),
        !r.refresh_pending,
{
    let mut label = cat("Undo registry ", key_path);
    label.append("\\");
    label.append(value_name);
    let (success, output) = match restored {
        Ok(text) => (true, text),
        Err(text) => (false, text),
    };
    let cleared_undo_id = if success {
        Some(id)
    } else {
        None
    };
    ExecOutcome {
        key: String::new(),
        exec_action: label.clone(),
        label,
        success,
        output,
        diagnosis: "User-requested undo of a registry change".to_owned(),
        confidence: Metric { bits: 0x3f80_0000 },
        reason: Some("undo by user".to_owned()),
        undo_id: None,
        cleared_undo_id,
        refresh_pending: false,
    }
}

// ── Folding an outcome in ─────────────────────────────────────────────────────

/// An execution whose undo is no longer offered, where it is the one that was used.
pub open spec fn undo_cleared(e: ExecutionSummary, used: Option<i64>) -> ExecutionSummary {
    if used is Some && e.undo_id == used {
        ExecutionSummary { undo_id: None, ..e }
    } else {
        e
    }
}

/// The executions, without the undo that was used.
pub open spec fn undos_cleared(s: Seq<ExecutionSummary>, used: Option<i64>) -> Seq<
    ExecutionSummary,
> {
    s.map_values(|e: ExecutionSummary| undo_cleared(e, used))
}

fn clear_undo(list: &mut Vec<ExecutionSummary>, used: Option<i64>)
    ensures
        final(list)@ == undos_cleared(old(list)@, used),
{
    let ghost all = list@;
    let mut i: usize = 0;
    while i < list.len()
        invariant
            i <= list@.len(),
            list@.len() == all.len(),
            forall|k: int| 0 <= k < i ==> #[trigger] list@[k] == undo_cleared(all[k], used),
            forall|k: int| i <= k < all.len() ==> #[trigger] list@[k] == all[k],
        decreases list@.len() - i,
    {
        let matches = match (list[i].undo_id, used) {
            (Some(a), Some(b)) => a == b,
            _ => false,
        };
        if matches {
            list[i].undo_id = None;
        }
        i += 1;
    }
    assert(list@ =~= undos_cleared(all, used));
}

/// Fold an outcome into the state: the action is no longer in flight, the queue is what was
/// read again where it was, and the run and its problem are shown. An error that stands has
/// nothing to do with it and stays.
pub fn fold_execution(
    st: &mut SvcState,
    outcome: ExecOutcome,
    reloaded: Option<Vec<PendingApproval>>,
    now: i64,
)
    requires
        old(st).wf(),
    ensures
        final(st).wf(),
        *final(st) == (SvcState {
            in_flight: final(st).in_flight,
            pending: final(st).pending,
            recent_executions: final(st).recent_executions,
            recent_problems: final(st).recent_problems,
            status: final(st).status,
            ..*old(st)
        }),
        final(st).in_flight@ == without(old(st).in_flight@, outcome.key@),
        final(st).pending == (if outcome.refresh_pending && reloaded is Some {
            reloaded->0
        } else {
            old(st).pending
        }),
        final(st).recent_executions@.len() > 0,
        final(st).recent_executions@ == pushed(
            undos_cleared(old(st).recent_executions@, outcome.cleared_undo_id),
            final(st).recent_executions@.last(),
            RECENT_CAP as int,
        ),
        recounts(
            final(st).recent_executions@.last(),
            outcome.exec_action@,
            outcome.success,
            outcome.output@,
            outcome.undo_id,
            now,
        ),
        problem_added(old(st).recent_problems@, final(st).recent_problems@),
        summarizes(
            final(st).recent_problems@.last(),
            outcome.diagnosis@,
            outcome.confidence,
            outcome.label@,
            false,
            true,
            opt_view(outcome.reason),
            now,
        ),
        final(st).status@ == settled(*final(st), now),
{
    remove_in_flight(st, outcome.key.as_str());
    if outcome.refresh_pending {
        if let Some(pending) = reloaded {
            st.pending = pending;
        }
    }
    clear_undo(&mut st.recent_executions, outcome.cleared_undo_id);
    push_execution(
        st,
        outcome.exec_action.as_str(),
        outcome.success,
        outcome.output.as_str(),
        outcome.undo_id,
        now,
    );
    push_problem(
        st,
        outcome.diagnosis.as_str(),
        outcome.confidence,
        outcome.label.as_str(),
        false,
        true,
        outcome.reason,
        now,
    );
    settle(st, now);
}

// ── What an outcome leaves ────────────────────────────────────────────────────

/// Using an undo takes it from the executions that offered it and from no other; nothing else of
/// any execution changes.
pub proof fn used_undo_is_no_longer_offered(
    s: Seq<ExecutionSummary>,
    used: Option<i64>,
    i: int,
)
    requires
        0 <= i < s.len(),
    ensures
        undos_cleared(s, used).len() == s.len(),
        used is Some && s[i].undo_id == used ==> undos_cleared(s, used)[i].undo_id is None,
        used is None || s[i].undo_id != used ==> undos_cleared(s, used)[i] == s[i],
        undos_cleared(s, used)[i].action == s[i].action,
        undos_cleared(s, used)[i].success == s[i].success,
        undos_cleared(s, used)[i].at == s[i].at,
{
}

/// An approval goes back to the queue exactly where its action was run on it and the run never
/// finished.
pub proof fn unfinished_approval_goes_back(stands_in: bool, approval_id: Option<u64>)
    ensures
        requeued(stands_in, approval_id) <==> stands_in && approval_id is Some,
{
}

/// Only the two repairs of system files have a limit of their own.
pub proof fn only_repairs_are_long(action: FixAction)
    ensures
        long_repair(action) <==> action is SfcScan || action is DismRestoreHealth,
{
}

// ── What the operations do ────────────────────────────────────────────────────

/// A repair may take as long as it is configured to, any other action ten minutes.
pub proof fn other_actions_take_ten_minutes(action: &FixAction, repair_secs: u64, r: u64)
    requires
        call_ensures(exec_timeout, (action, repair_secs), r),
    ensures
        action is ServiceStop || action is ServiceStart || action is ServiceRestart
            || action is FileDelete || action is LogCleanup || action is RegistryReset ==> r == 600,
        r == 600 || r == repair_secs,
{
    only_repairs_are_long(*action);
}

/// A run that finished is reported as it went; one that did not is reported as failed, by what
/// stands in for its result.
pub proof fn unfinished_run_has_failed(
    label: &str,
    end: RunEnd,
    limit_secs: u64,
    r: (ExecutionResult, bool),
)
    requires
        call_ensures(run_result, (label, end, limit_secs), r),
    ensures
        end matches RunEnd::Finished(result) ==> r.0 == result && !r.1,
        !(end is Finished) ==> r.1 && !r.0.success && r.0.undo is None && r.0.action@ == label@,
{
}

/// A registry reset whose undo could not be stored is taken back where its undo is known; any
/// other action stays as it went, and a failure to record it is told.
pub proof fn unrecorded_reset_is_taken_back(
    result: ExecutionResult,
    action: &FixAction,
    requeue: bool,
    recorded: Result<Commit, String>,
    r: RecordStep,
)
    requires
        call_ensures(after_record, (result, action, requeue, recorded), r),
    ensures
        recorded matches Ok(commit) ==> r is Done && r->Done_0.result == result
            && r->Done_0.commit == Some(commit) && r->Done_0.refresh_pending == requeue,
        recorded is Err && result.success && action is RegistryReset && result.undo is Some
            ==> r is Restore && Some(r->Restore_1) == result.undo,
        recorded is Err && result.success && action is RegistryReset && result.undo is None
            ==> r is Done && !r->Done_0.result.success && r->Done_0.commit is None,
        recorded is Err && !(result.success && action is RegistryReset) ==> r is Done
            && r->Done_0.result.success == result.success && r->Done_0.commit is None
            && r->Done_0.result.undo == result.undo,
{
}

/// A reset that was taken back, or could not be, is never reported as done.
pub proof fn reset_that_was_taken_back_has_failed(
    result: ExecutionResult,
    commit_error: &str,
    approval_id: Option<u64>,
    restored: Result<String, String>,
    r: RestoreStep,
)
    requires
        call_ensures(after_restore, (result, commit_error, approval_id, restored), r),
    ensures
        restored is Ok ==> r is RecordAgain && !r->RecordAgain_0.success && r->RecordAgain_1
            == (approval_id is Some),
        restored is Err ==> r is Done && !r->Done_0.result.success && r->Done_0.commit is None
            && !r->Done_0.refresh_pending,
{
}

/// What came of a job is told with the job's own words and with how it went.
pub proof fn outcome_is_of_its_job(job: ExecJob, end: Recorded, r: ExecOutcome)
    requires
        call_ensures(exec_outcome, (job, end), r),
    ensures
        r.key == job.key && r.label == job.label && r.diagnosis == job.diagnosis && r.confidence
            == job.confidence && r.reason == job.reason,
        r.success == end.result.success && r.output == end.result.output && r.exec_action
            == end.result.action,
        end.commit is None ==> r.undo_id is None,
        end.commit matches Some(c) ==> r.undo_id == c.undo_id,
        r.cleared_undo_id is None && r.refresh_pending == end.refresh_pending,
{
}

/// An undo that worked is no longer offered; one that failed still is.
pub proof fn undo_that_worked_is_cleared(
    key_path: &str,
    value_name: &str,
    id: i64,
    restored: Result<String, String>,
    r: ExecOutcome,
)
    requires
        call_ensures(undo_outcome, (key_path, value_name, id, restored), r),
    ensures
        r.success == (restored is Ok),
        restored matches Ok(text) ==> r.cleared_undo_id == Some(id) && r.output == text,
        restored matches Err(text) ==> r.cleared_undo_id is None && r.output == text,
        r.undo_id is None && !r.refresh_pending,
{
}

/// What came of an action is folded in: it is no longer under way, the others are; the approvals
/// are reloaded only where that is due; and it is shown as the last execution and problem.
pub proof fn outcome_is_folded_in(
    st: &mut SvcState,
    outcome: ExecOutcome,
    reloaded: Option<Vec<PendingApproval>>,
    now: i64,
)
    requires
        call_ensures(fold_execution, (st, outcome, reloaded, now), ()),
    ensures
        final(st).in_flight@ == old(st).in_flight@.filter(|t: String| t@ != outcome.key@),
        outcome.refresh_pending && reloaded is Some ==> final(st).pending == reloaded->0,
        !outcome.refresh_pending || reloaded is None ==> final(st).pending == old(st).pending,
        ({
            let e = final(st).recent_executions@.last();
            &&& e.action@ == outcome.exec_action@ && e.success == outcome.success && e.undo_id
                == outcome.undo_id && e.at == now
        }),
        ({
            let p = final(st).recent_problems@.last();
            &&& p.diagnosis@ == outcome.diagnosis@ && p.action@ == outcome.label@ && !p.blocked
                && p.auto_executed && p.at == now
        }),
        final(st).paused == old(st).paused && final(st).error == old(st).error,
{
    let name = outcome.key@;
    others_stay_in_flight(old(st).in_flight@, name);
    assert((|t: String| t@ != outcome.key@) =~= (|t: String| t@ != name));
}

} // verus!
