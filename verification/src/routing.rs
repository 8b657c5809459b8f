//! The way of a proposed fix: past the policy, to the executor or to the user, and what the
//! user's decision comes to.

use crate::copied::Copied;
use crate::json::{json_text, show_value};
use crate::metric::{less, Metric};
use crate::models::{FixAction, Problem, SystemState};
use crate::policy::{
    action_name, what_is_approved_was_allowed, Confidence, ExecutionPolicy, Verdict, VerdictModel,
};
use crate::proto::{ApprovalInfo, PendingApproval};
use crate::state::{
    SvcState, insert_in_flight, is_occupied, occupied, others_stay_in_flight, problem_added,
    push_problem, remove_in_flight, settle, settled, summarizes, under_way_is_in_flight_or_asked,
    without,
};
use crate::text::{listed, opt_view};
use vstd::prelude::*;
use vstd::string::*;

verus! {

/// The greatest confidence, one.
pub open spec fn certain() -> Metric {
    Metric { bits: 0x3f80_0000 }
}

/// Whether the policy blocks an action, however sure anyone is of it: its type is never
/// executed, or its target is on the blocklist.
pub open spec fn blocked(pol: ExecutionPolicy, action: FixAction) -> bool {
    listed(pol.blocklist.actions@, action_name(action)) || pol.block_reason(action) is Some
}

/// One text after the other.
pub fn cat(a: &str, b: &str) -> (r: String)
    ensures
        r@ == a@ + b@,
{
    let mut r = a.to_owned();
    r.append(b);
    r
}

/// A fix that is handed to the executor, with what it takes to record its outcome.
pub struct ExecJob {
    pub action: FixAction,
    pub decision_id: i64,
    pub baseline: SystemState,
    /// The action's identity, under which it is in flight.
    pub key: String,
    /// The action as it is shown.
    pub label: String,
    pub diagnosis: String,
    pub confidence: Metric,
    /// Why it runs; none for one that runs by itself.
    pub reason: Option<String>,
    /// The approval that it runs on, which is kept until its outcome is recorded.
    pub approval_id: Option<u64>,
}

/// What is said of a result.
pub open spec fn said(r: Result<String, String>, ok: bool, text: Seq<char>) -> bool {
    match r {
        Ok(message) => ok && message@ == text,
        Err(message) => !ok && message@ == text,
    }
}

/// A change that the user asked for.
pub struct UserRequest {
    pub action: FixAction,
    /// What is noted as its cause.
    pub diagnosis: &'static str,
    /// Why it runs.
    pub reason: &'static str,
    /// The user has to confirm it even where the policy would let it run.
    pub force_approval: bool,
}

/// What is told of an action, for the user to decide on.
pub struct Explanation {
    pub summary: String,
    pub target: String,
    pub target_details: String,
    pub reversible: bool,
}

/// Whether a job is the one of a user's own action.
pub open spec fn user_job_of(
    job: ExecJob,
    request: UserRequest,
    decision_id: i64,
    label: Seq<char>,
) -> bool {
    &&& job.action == request.action
    &&& job.decision_id == decision_id
    &&& job.baseline.is_blank()
    &&& job.key@ == request.action.key()
    &&& job.label@ == label
    &&& job.diagnosis@ == request.diagnosis@
    &&& job.confidence == certain()
    &&& opt_view(job.reason) == Some(request.reason@)
    &&& job.approval_id is None
}

/// The job of a user's own action. Its effect is not judged, so that the state before it is
/// not kept.
pub fn user_job(request: &UserRequest, decision_id: i64, label: &str) -> (r: ExecJob)
    ensures
        user_job_of(r, *request, decision_id, label@),
{
    let key = request.action.dedup_key();
    ExecJob {
        action: request.action.copy(),
        decision_id,
        baseline: SystemState::default(),
        key,
        label: label.to_owned(),
        diagnosis: request.diagnosis.to_owned(),
        confidence: Metric { bits: 0x3f80_0000 },
        reason: Some(request.reason.to_owned()),
        approval_id: None,
    }
}

/// Whether a job is the one of a fix that runs by itself.
pub open spec fn fix_job_of(
    job: ExecJob,
    action: FixAction,
    problem: Problem,
    decision_id: i64,
    baseline: SystemState,
    label: Seq<char>,
) -> bool {
    &&& job.action == action
    &&& job.decision_id == decision_id
    &&& baseline.same_as(&job.baseline)
    &&& job.key@ == action.key()
    &&& job.label@ == label
    &&& job.diagnosis@ == problem.diagnosis@
    &&& job.confidence == problem.confidence
    &&& job.reason is None
    &&& job.approval_id is None
}

/// The job of a fix that runs by itself, with the state that it was proposed in.
pub fn fix_job(
    action: &FixAction,
    problem: &Problem,
    decision_id: i64,
    baseline: &SystemState,
    label: &str,
) -> (r: ExecJob)
    ensures
        fix_job_of(r, *action, *problem, decision_id, *baseline, label@),
{
    let key = action.dedup_key();
    ExecJob {
        action: action.copy(),
        decision_id,
        baseline: baseline.copied(),
        key,
        label: label.to_owned(),
        diagnosis: problem.diagnosis.clone(),
        confidence: problem.confidence,
        reason: None,
        approval_id: None,
    }
}

/// What is shown of a user's own action that awaits approval.
pub fn user_approval(
    request: &UserRequest,
    reason: String,
    label: String,
    told: Explanation,
    now: i64,
) -> (r: ApprovalInfo)
    ensures
        r.id == 0,
        r.diagnosis@ == request.diagnosis@,
        r.root_cause@.len() == 0,
        r.confidence == certain(),
        r.action == label,
        r.reason == reason,
        r.side_effects@.len() == 0,
        r.undo_instructions@.len() == 0,
        r.action_summary == told.summary,
        r.target == told.target,
        r.target_details == told.target_details,
        r.reversible == told.reversible,
        r.created_at == now,
{
    ApprovalInfo {
        id: 0,
        diagnosis: request.diagnosis.to_owned(),
        root_cause: String::new(),
        confidence: Metric { bits: 0x3f80_0000 },
        action: label,
        reason,
        side_effects: String::new(),
        undo_instructions: String::new(),
        action_summary: told.summary,
        target: told.target,
        target_details: told.target_details,
        reversible: told.reversible,
        created_at: now,
    }
}

/// What is shown of a problem's fix that awaits approval.
pub fn problem_approval(
    problem: &Problem,
    reason: String,
    label: String,
    told: Explanation,
    now: i64,
) -> (r: ApprovalInfo)
    ensures
        r.id == 0,
        r.diagnosis@ == problem.diagnosis@,
        r.root_cause@ == problem.root_cause@,
        r.confidence == problem.confidence,
        r.action == label,
        r.reason == reason,
        r.side_effects@ == problem.side_effects@,
        r.undo_instructions@ == problem.undo_instructions@,
        r.action_summary == told.summary,
        r.target == told.target,
        r.target_details == told.target_details,
        r.reversible == told.reversible,
        r.created_at == now,
{
    ApprovalInfo {
        id: 0,
        diagnosis: problem.diagnosis.clone(),
        root_cause: problem.root_cause.clone(),
        confidence: problem.confidence,
        action: label,
        reason,
        side_effects: problem.side_effects.clone(),
        undo_instructions: problem.undo_instructions.clone(),
        action_summary: told.summary,
        target: told.target,
        target_details: told.target_details,
        reversible: told.reversible,
        created_at: now,
    }
}

/// An action as it waits in the queue, under the number that the queue gave it.
pub fn queued_approval(
    info: ApprovalInfo,
    id: u64,
    action: FixAction,
    decision_id: i64,
    baseline: SystemState,
) -> (r: PendingApproval)
    ensures
        r.info == (ApprovalInfo { id, ..info }),
        r.action == action,
        r.decision_id == decision_id,
        r.baseline == baseline,
{
    let mut info = info;
    info.id = id;
    PendingApproval { info, action, decision_id, baseline }
}

// ── A user's own action ───────────────────────────────────────────────────────

/// What a verdict becomes for an action that the user has to confirm in any case.
pub open spec fn confirmed_first(v: VerdictModel, force_approval: bool) -> VerdictModel {
    if force_approval && v is AutoApprove {
        VerdictModel::RequireApproval("User-initiated change — confirm to apply"@)
    } else {
        v
    }
}

/// The verdict on a user's own action: the policy's, at full confidence.
pub open spec fn user_verdict(pol: ExecutionPolicy, action: FixAction, force: bool) -> VerdictModel {
    confirmed_first(pol.verdict(action, certain(), "100"@), force)
}

/// The verdict on a user's own action.
pub fn evaluate_user_action(
    pol: &ExecutionPolicy,
    action: &FixAction,
    force_approval: bool,
) -> (r: Verdict)
    ensures
        r@ == user_verdict(*pol, *action, force_approval),
{
    let full = Confidence {
        value: Metric { bits: 0x3f80_0000 },
        percent: "100".to_owned(),
    };
    match pol.evaluate(action, &full) {
        Verdict::AutoApprove => {
            if force_approval {
                Verdict::RequireApproval("User-initiated change — confirm to apply".to_owned())
            } else {
                Verdict::AutoApprove
            }
        },
        other => other,
    }
}

/// The identity under which a user's own action goes on; one that is already under way does
/// not.
pub fn begin_user_action(st: &SvcState, action: &FixAction) -> (r: Result<String, String>)
    ensures
        match r {
            Ok(key) => key@ == action.key() && !occupied(*st, action.key()),
            Err(message) => occupied(*st, action.key()) && message@
                == "Action is already queued or executing"@,
        },
{
    let key = action.dedup_key();
    if is_occupied(st, key.as_str()) {
        Err("Action is already queued or executing".to_owned())
    } else {
        Ok(key)
    }
}

/// Where a user's own action goes next.
pub enum UserRoute {
    /// It ends here.
    Finished(Result<String, String>),
    /// It may run by itself, unless it ran of late.
    CheckRate,
    /// It waits for the user, for this reason.
    AskApproval(String),
}

/// Whether only the shown problems and the status differ, with one blocked problem more.
pub open spec fn blocked_problem_shown(
    before: SvcState,
    after: SvcState,
    diagnosis: Seq<char>,
    confidence: Metric,
    label: Seq<char>,
    reason: Seq<char>,
    now: i64,
) -> bool {
    &&& after == (SvcState {
        recent_problems: after.recent_problems,
        status: after.status,
        ..before
    })
    &&& problem_added(before.recent_problems@, after.recent_problems@)
    &&& summarizes(
        after.recent_problems@.last(),
        diagnosis,
        confidence,
        label,
        true,
        false,
        Some(reason),
        now,
    )
}

/// Decide on a user's own action, once it has been recorded: a blocked one ends here.
pub fn decide_user_action(
    st: &mut SvcState,
    pol: &ExecutionPolicy,
    action: &FixAction,
    label: &str,
    diagnosis: &str,
    force_approval: bool,
    recorded: Result<i64, String>,
    now: i64,
) -> (r: UserRoute)
    requires
        old(st).wf(),
    ensures
        final(st).wf(),
        match recorded {
            Err(e) => {
                &&& *final(st) == *old(st)
                &&& r is Finished
                &&& said(r->Finished_0, false, "Action could not be recorded: "@ + e@)
            },
            Ok(_) => match user_verdict(*pol, *action, force_approval) {
                VerdictModel::Block(reason) => {
                    &&& blocked_problem_shown(
                        *old(st),
                        *final(st),
                        diagnosis@,
                        certain(),
                        label@,
                        reason,
                        now,
                    )
                    &&& final(st).status@ == settled(*old(st), now)
                    &&& r is Finished
                    &&& said(r->Finished_0, false, reason)
                },
                VerdictModel::AutoApprove => *final(st) == *old(st) && r is CheckRate,
                VerdictModel::RequireApproval(reason) => *final(st) == *old(st) && r is AskApproval
                    && r->AskApproval_0@ == reason,
            },
        },
{
    if let Err(e) = recorded {
        return UserRoute::Finished(Err(cat("Action could not be recorded: ", e.as_str())));
    }
    match evaluate_user_action(pol, action, force_approval) {
        Verdict::Block(reason) => {
            push_problem(
                st,
                diagnosis,
                Metric { bits: 0x3f80_0000 },
                label,
                true,
                false,
                Some(reason.clone()),
                now,
            );
            settle(st, now);
            UserRoute::Finished(Err(reason))
        },
        Verdict::AutoApprove => UserRoute::CheckRate,
        Verdict::RequireApproval(reason) => UserRoute::AskApproval(reason),
    }
}

/// Go on with a user's own action that may run by itself, given whether it ran of late. One
/// that is to run is in flight from here on.
pub fn rate_user_action(
    st: &mut SvcState,
    key: &str,
    label: &str,
    diagnosis: &str,
    limited: Result<bool, String>,
    now: i64,
) -> (r: Result<(), String>)
    requires
        old(st).wf(),
    ensures
        final(st).wf(),
        match limited {
            Ok(true) => {
                &&& r is Err
                &&& r->Err_0@ == "Action was already completed recently"@
                &&& blocked_problem_shown(
                    *old(st),
                    *final(st),
                    diagnosis@,
                    certain(),
                    label@,
                    "Skipped — already done recently (rate-limited)."@,
                    now,
                )
                &&& final(st).status == old(st).status
            },
            Ok(false) => {
                &&& r is Ok
                &&& *final(st) == (SvcState { in_flight: final(st).in_flight, ..*old(st) })
                &&& listed(final(st).in_flight@, key@)
                &&& !listed(old(st).in_flight@, key@) ==> set_in_flight(
                    *old(st),
                    key@,
                    *final(st),
                )
                &&& listed(old(st).in_flight@, key@) ==> final(st).in_flight == old(st).in_flight
            },
            Err(e) => r is Err && r->Err_0@ == "Safety check failed: "@ + e@ && *final(st) == *old(st),
        },
{
    match limited {
        Ok(true) => {
            push_problem(
                st,
                diagnosis,
                Metric { bits: 0x3f80_0000 },
                label,
                true,
                false,
                Some("Skipped — already done recently (rate-limited).".to_owned()),
                now,
            );
            Err("Action was already completed recently".to_owned())
        },
        Ok(false) => {
            let _ = insert_in_flight(st, key);
            assert(listed(st.in_flight@, key@)) by {
                if !listed(old(st).in_flight@, key@) {
                    let n = st.in_flight@.len();
                    assert(st.in_flight@[n - 1]@ == key@);
                }
            }
            Ok(())
        },
        Err(e) => Err(cat("Safety check failed: ", e.as_str())),
    }
}

/// The end of a user's own action that was handed to the executor. Where the executor is
/// gone, no outcome will come, so the action is no longer in flight.
pub fn queue_user_action(st: &mut SvcState, key: &str, sent: bool, now: i64) -> (r: Result<
    String,
    String,
>)
    requires
        old(st).wf(),
    ensures
        final(st).wf(),
        said(
            r,
            sent,
            if sent {
                "Action queued"@
            } else {
                "Executor is unavailable"@
            },
        ),
        *final(st) == (SvcState {
            in_flight: final(st).in_flight,
            status: final(st).status,
            ..*old(st)
        }),
        sent ==> final(st).in_flight == old(st).in_flight,
        !sent ==> final(st).in_flight@ == without(old(st).in_flight@, key@),
        final(st).status@ == settled(*final(st), now),
{
    let r = if sent {
        Ok("Action queued".to_owned())
    } else {
        remove_in_flight(st, key);
        Err("Executor is unavailable".to_owned())
    };
    settle(st, now);
    r
}

/// The end of a user's own action that waits for approval, or could not be made to.
pub fn approval_user_action(
    st: &mut SvcState,
    queued: Result<PendingApproval, String>,
    label: &str,
    diagnosis: &str,
    now: i64,
) -> (r: Result<String, String>)
    requires
        old(st).wf(),
    ensures
        final(st).wf(),
        final(st).status@ == settled(*final(st), now),
        match queued {
            Ok(approval) => {
                &&& said(r, true, "Action queued for approval"@)
                &&& *final(st) == (SvcState {
                    pending: final(st).pending,
                    status: final(st).status,
                    ..*old(st)
                })
                &&& final(st).pending@ == old(st).pending@.push(approval)
            },
            Err(e) => {
                &&& said(r, false, "Action could not be queued for approval: "@ + e@)
                &&& blocked_problem_shown(
                    *old(st),
                    *final(st),
                    diagnosis@,
                    certain(),
                    label@,
                    "could not queue for approval: "@ + e@,
                    now,
                )
            },
        },
{
    let r = match queued {
        Ok(approval) => {
            st.pending.push(approval);
            Ok("Action queued for approval".to_owned())
        },
        Err(e) => {
            push_problem(
                st,
                diagnosis,
                Metric { bits: 0x3f80_0000 },
                label,
                true,
                false,
                Some(cat("could not queue for approval: ", e.as_str())),
                now,
            );
            Err(cat("Action could not be queued for approval: ", e.as_str()))
        },
    };
    settle(st, now);
    r
}

/// What becomes of a user's own action.
pub enum UserStep {
    /// It ends here.
    Finished(Result<String, String>),
    /// It waits for the user, for this reason.
    Ask(String),
    /// Hand the job to the executor.
    Run(ExecJob),
}

/// Whether an action is in flight in one state more than in another, and nothing else differs.
pub open spec fn set_in_flight(before: SvcState, key: Seq<char>, after: SvcState) -> bool {
    &&& after == (SvcState { in_flight: after.in_flight, ..before })
    &&& after.in_flight@.len() > 0
    &&& after.in_flight@.drop_last() == before.in_flight@
    &&& after.in_flight@.last()@ == key
}

/// Whether a user's own action goes its way: not where it is under way already or could not
/// be recorded, and past the policy. Where the policy lets it run, it runs unless it ran of
/// late, or that could not be found out.
pub open spec fn user_action_routed(
    before: SvcState,
    pol: ExecutionPolicy,
    request: UserRequest,
    label: Seq<char>,
    recorded: Result<i64, String>,
    limited: Result<bool, String>,
    now: i64,
    r: UserStep,
    after: SvcState,
) -> bool {
    let key = request.action.key();
    if occupied(before, key) {
        &&& after == before
        &&& r is Finished
        &&& said(r->Finished_0, false, "Action is already queued or executing"@)
    } else {
        match recorded {
            Err(e) => {
                &&& after == before
                &&& r is Finished
                &&& said(r->Finished_0, false, "Action could not be recorded: "@ + e@)
            },
            Ok(decision_id) => match user_verdict(pol, request.action, request.force_approval) {
                VerdictModel::Block(reason) => {
                    &&& blocked_problem_shown(
                        before,
                        after,
                        request.diagnosis@,
                        certain(),
                        label,
                        reason,
                        now,
                    )
                    &&& after.status@ == settled(before, now)
                    &&& r is Finished
                    &&& said(r->Finished_0, false, reason)
                },
                VerdictModel::RequireApproval(reason) => {
                    &&& after == before
                    &&& r is Ask
                    &&& r->Ask_0@ == reason
                },
                VerdictModel::AutoApprove => match limited {
                    Ok(true) => {
                        &&& blocked_problem_shown(
                            before,
                            after,
                            request.diagnosis@,
                            certain(),
                            label,
                            "Skipped — already done recently (rate-limited)."@,
                            now,
                        )
                        &&& after.status == before.status
                        &&& r is Finished
                        &&& said(r->Finished_0, false, "Action was already completed recently"@)
                    },
                    Ok(false) => {
                        &&& set_in_flight(before, key, after)
                        &&& r is Run
                        &&& user_job_of(r->Run_0, request, decision_id, label)
                    },
                    Err(e) => {
                        &&& after == before
                        &&& r is Finished
                        &&& said(r->Finished_0, false, "Safety check failed: "@ + e@)
                    },
                },
            },
        }
    }
}

/// Send a user's own action on its way, given what came of recording it and whether it ran
/// of late. A job comes out only where the policy lets the action run by itself and it is
/// neither under way nor ran of late.
pub fn route_user_action(
    st: &mut SvcState,
    pol: &ExecutionPolicy,
    request: &UserRequest,
    label: &str,
    recorded: Result<i64, String>,
    limited: Result<bool, String>,
    now: i64,
) -> (r: UserStep)
    requires
        old(st).wf(),
    ensures
        final(st).wf(),
        user_action_routed(
            *old(st),
            *pol,
            *request,
            label@,
            recorded,
            limited,
            now,
            r,
            *final(st),
        ),
        r is Run ==> !occupied(*old(st), request.action.key()) && user_verdict(
            *pol,
            request.action,
            request.force_approval,
        ) is AutoApprove && limited == Ok::<bool, String>(false),
{
    let key = match begin_user_action(st, &request.action) {
        Ok(key) => key,
        Err(message) => return UserStep::Finished(Err(message)),
    };
    let decision_id: i64 = match &recorded {
        Ok(id) => *id,
        Err(_) => 0,
    };
    let route = decide_user_action(
        st,
        pol,
        &request.action,
        label,
        request.diagnosis,
        request.force_approval,
        recorded,
        now,
    );
    match route {
        UserRoute::Finished(reply) => UserStep::Finished(reply),
        UserRoute::AskApproval(reason) => UserStep::Ask(reason),
        UserRoute::CheckRate => {
            match rate_user_action(st, key.as_str(), label, request.diagnosis, limited, now) {
                Ok(()) => UserStep::Run(user_job(request, decision_id, label)),
                Err(message) => UserStep::Finished(Err(message)),
            }
        },
    }
}

/// An action that the policy blocks does not run because the user asks for it: no job comes
/// out, and nothing is in flight that was not.
pub proof fn blocked_request_does_not_run(
    before: SvcState,
    pol: ExecutionPolicy,
    request: UserRequest,
    label: Seq<char>,
    recorded: Result<i64, String>,
    limited: Result<bool, String>,
    now: i64,
    r: UserStep,
    after: SvcState,
)
    requires
        user_action_routed(before, pol, request, label, recorded, limited, now, r, after),
        blocked(pol, request.action),
    ensures
        !(r is Run),
        after.in_flight == before.in_flight,
{
}

/// Where the user has to confirm an action, the policy's verdict never lets it run by itself;
/// whether it blocks it does not change.
pub proof fn confirmed_action_is_not_approved_by_itself(pol: ExecutionPolicy, action: FixAction)
    ensures
        !(user_verdict(pol, action, true) is AutoApprove),
        user_verdict(pol, action, true) is Block <==> pol.verdict(action, certain(), "100"@) is Block,
{
}

// ── A problem that the model found ────────────────────────────────────────────

/// Where a proposed fix goes next.
pub enum ProblemRoute {
    /// It ends here.
    Finished,
    /// It may run by itself, unless it ran of late.
    CheckRate,
    /// It waits for the user, for this reason.
    AskApproval(String),
}

/// Route a problem that the model found. `confidence` is what the policy goes by, once what
/// was learned about such fixes has been taken off. A fix that is no known action is shown as
/// the model wrote it.
pub fn route_problem(
    st: &mut SvcState,
    pol: &ExecutionPolicy,
    problem: &Problem,
    label: &str,
    confidence: &Confidence,
    now: i64,
) -> (r: ProblemRoute)
    requires
        old(st).wf(),
    ensures
        final(st).wf(),
        match problem.proposed_fix.action {
            None => {
                &&& r is Finished
                &&& blocked_problem_shown(
                    *old(st),
                    *final(st),
                    problem.diagnosis@,
                    problem.confidence,
                    json_text(problem.proposed_fix.value),
                    "unrecognised fix action"@,
                    now,
                )
                &&& final(st).status == old(st).status
            },
            Some(action) => match pol.verdict(action, confidence.value, confidence.percent@) {
                VerdictModel::Block(reason) => {
                    &&& r is Finished
                    &&& blocked_problem_shown(
                        *old(st),
                        *final(st),
                        problem.diagnosis@,
                        confidence.value,
                        label@,
                        reason,
                        now,
                    )
                    &&& final(st).status == old(st).status
                },
                VerdictModel::AutoApprove => r is CheckRate && *final(st) == *old(st),
                VerdictModel::RequireApproval(reason) => {
                    &&& *final(st) == *old(st)
                    &&& if occupied(*old(st), action.key()) {
                        r is Finished
                    } else {
                        r is AskApproval && r->AskApproval_0@ == reason
                    }
                },
            },
        },
{
    let action = match &problem.proposed_fix.action {
        Some(action) => action,
        None => {
            push_problem(
                st,
                problem.diagnosis.as_str(),
                problem.confidence,
                show_value(&problem.proposed_fix.value).as_str(),
                true,
                false,
                Some("unrecognised fix action".to_owned()),
                now,
            );
            return ProblemRoute::Finished;
        },
    };
    match pol.evaluate(action, confidence) {
        Verdict::Block(reason) => {
            push_problem(
                st,
                problem.diagnosis.as_str(),
                confidence.value,
                label,
                true,
                false,
                Some(reason),
                now,
            );
            ProblemRoute::Finished
        },
        Verdict::AutoApprove => ProblemRoute::CheckRate,
        Verdict::RequireApproval(reason) => {
            let key = action.dedup_key();
            if is_occupied(st, key.as_str()) {
                ProblemRoute::Finished
            } else {
                ProblemRoute::AskApproval(reason)
            }
        },
    }
}

/// Whether a fix that may run by itself runs now, given whether it ran of late: not where
/// that could not be found out, and not where it is under way already. One that runs is in
/// flight from here on.
pub fn start_auto_fix(st: &mut SvcState, key: &str, limited: Result<bool, String>) -> (r: bool)
    requires
        old(st).wf(),
    ensures
        final(st).wf(),
        r == (limited == Ok::<bool, String>(false) && !occupied(*old(st), key@)),
        !r ==> *final(st) == *old(st),
        r ==> *final(st) == (SvcState { in_flight: final(st).in_flight, ..*old(st) })
            && final(st).in_flight@.drop_last() == old(st).in_flight@
            && final(st).in_flight@.len() > 0 && final(st).in_flight@.last()@ == key@,
{
    let free = match limited {
        Ok(ran) => !ran,
        Err(_) => false,
    };
    if !free || is_occupied(st, key) {
        return false;
    }
    insert_in_flight(st, key)
}

/// What becomes of a problem that the model found.
pub enum ProblemStep {
    /// It ends here.
    Finished,
    /// Its fix waits for the user, for this reason.
    Ask(String),
    /// Hand the job to the executor.
    Run(ExecJob),
}

/// Whether a problem that the model found goes its way: past the policy, and where that lets
/// its fix run, the fix runs unless it is under way already or ran of late, or that could not
/// be found out.
pub open spec fn problem_routed(
    before: SvcState,
    pol: ExecutionPolicy,
    problem: Problem,
    label: Seq<char>,
    confidence: Confidence,
    limited: Result<bool, String>,
    decision_id: i64,
    baseline: SystemState,
    now: i64,
    r: ProblemStep,
    after: SvcState,
) -> bool {
    match problem.proposed_fix.action {
        None => {
            &&& r is Finished
            &&& blocked_problem_shown(
                before,
                after,
                problem.diagnosis@,
                problem.confidence,
                json_text(problem.proposed_fix.value),
                "unrecognised fix action"@,
                now,
            )
            &&& after.status == before.status
        },
        Some(action) => match pol.verdict(action, confidence.value, confidence.percent@) {
            VerdictModel::Block(reason) => {
                &&& r is Finished
                &&& blocked_problem_shown(
                    before,
                    after,
                    problem.diagnosis@,
                    confidence.value,
                    label,
                    reason,
                    now,
                )
                &&& after.status == before.status
            },
            VerdictModel::RequireApproval(reason) => {
                &&& after == before
                &&& if occupied(before, action.key()) {
                    r is Finished
                } else {
                    r is Ask && r->Ask_0@ == reason
                }
            },
            VerdictModel::AutoApprove => if limited == Ok::<bool, String>(false) && !occupied(
                before,
                action.key(),
            ) {
                &&& set_in_flight(before, action.key(), after)
                &&& r is Run
                &&& fix_job_of(r->Run_0, action, problem, decision_id, baseline, label)
            } else {
                r is Finished && after == before
            },
        },
    }
}

/// Send a problem that the model found on its way, given whether its fix ran of late. A job
/// comes out only where the policy lets the fix run by itself and it is neither under way nor
/// ran of late.
pub fn pursue_problem(
    st: &mut SvcState,
    pol: &ExecutionPolicy,
    problem: &Problem,
    label: &str,
    confidence: &Confidence,
    limited: Result<bool, String>,
    decision_id: i64,
    baseline: &SystemState,
    now: i64,
) -> (r: ProblemStep)
    requires
        old(st).wf(),
    ensures
        final(st).wf(),
        problem_routed(
            *old(st),
            *pol,
            *problem,
            label@,
            *confidence,
            limited,
            decision_id,
            *baseline,
            now,
            r,
            *final(st),
        ),
        r is Run ==> problem.proposed_fix.action is Some && pol.verdict(
            problem.proposed_fix.action->0,
            confidence.value,
            confidence.percent@,
        ) is AutoApprove && limited == Ok::<bool, String>(false),
{
    match route_problem(st, pol, problem, label, confidence, now) {
        ProblemRoute::Finished => ProblemStep::Finished,
        ProblemRoute::AskApproval(reason) => ProblemStep::Ask(reason),
        ProblemRoute::CheckRate => match &problem.proposed_fix.action {
            Some(action) => {
                let key = action.dedup_key();
                if start_auto_fix(st, key.as_str(), limited) {
                    ProblemStep::Run(fix_job(action, problem, decision_id, baseline, label))
                } else {
                    ProblemStep::Finished
                }
            },
            None => ProblemStep::Finished,
        },
    }
}

/// A fix that the policy blocks does not run, however sure the model is of it: no job comes
/// out, and nothing is in flight that was not.
pub proof fn blocked_fix_does_not_run(
    before: SvcState,
    pol: ExecutionPolicy,
    problem: Problem,
    label: Seq<char>,
    confidence: Confidence,
    limited: Result<bool, String>,
    decision_id: i64,
    baseline: SystemState,
    now: i64,
    r: ProblemStep,
    after: SvcState,
)
    requires
        problem_routed(
            before,
            pol,
            problem,
            label,
            confidence,
            limited,
            decision_id,
            baseline,
            now,
            r,
            after,
        ),
        problem.proposed_fix.action is Some,
        blocked(pol, problem.proposed_fix.action->0),
    ensures
        r is Finished,
        after.in_flight == before.in_flight,
{
}

/// A fix that runs by itself is on the whitelist, on no blocklist and sure enough, did not run
/// of late and was not under way.
pub proof fn what_runs_by_itself_was_allowed(
    before: SvcState,
    pol: ExecutionPolicy,
    problem: Problem,
    label: Seq<char>,
    confidence: Confidence,
    limited: Result<bool, String>,
    decision_id: i64,
    baseline: SystemState,
    now: i64,
    r: ProblemStep,
    after: SvcState,
)
    requires
        problem_routed(
            before,
            pol,
            problem,
            label,
            confidence,
            limited,
            decision_id,
            baseline,
            now,
            r,
            after,
        ),
        r is Run,
    ensures
        listed(pol.whitelist.actions@, action_name(r->Run_0.action)),
        !blocked(pol, r->Run_0.action),
        !less(confidence.value, pol.execution.confidence_threshold.value),
        limited == Ok::<bool, String>(false),
        !occupied(before, r->Run_0.action.key()),
{
    what_is_approved_was_allowed(pol, r->Run_0.action, confidence.value, confidence.percent@);
}

/// Note whether the executor took a fix that runs by itself.
pub fn auto_fix_sent(st: &mut SvcState, key: &str, sent: bool)
    requires
        old(st).wf(),
    ensures
        final(st).wf(),
        sent ==> *final(st) == (SvcState { status: final(st).status, ..*old(st) })
            && final(st).status@ == "Executing"@,
        !sent ==> *final(st) == (SvcState {
            in_flight: final(st).in_flight,
            error: final(st).error,
            ..*old(st)
        }) && final(st).in_flight@ == without(old(st).in_flight@, key@) && opt_view(
            final(st).error,
        ) == Some("Executor is unavailable; the fix was not started"@),
{
    if sent {
        st.status = "Executing".to_owned();
    } else {
        remove_in_flight(st, key);
        st.error = Some("Executor is unavailable; the fix was not started".to_owned());
    }
}

/// Note a fix that waits for approval, or could not be made to.
pub fn approval_queued(
    st: &mut SvcState,
    queued: Result<PendingApproval, String>,
    problem: &Problem,
    label: &str,
    now: i64,
)
    requires
        old(st).wf(),
    ensures
        final(st).wf(),
        match queued {
            Ok(approval) => {
                &&& *final(st) == (SvcState {
                    pending: final(st).pending,
                    status: final(st).status,
                    ..*old(st)
                })
                &&& final(st).pending@ == old(st).pending@.push(approval)
                &&& final(st).status@ == "PendingApproval"@
            },
            Err(e) => {
                &&& blocked_problem_shown(
                    *old(st),
                    *final(st),
                    problem.diagnosis@,
                    problem.confidence,
                    label@,
                    "could not queue for approval: "@ + e@,
                    now,
                )
                &&& final(st).status == old(st).status
            },
        },
{
    match queued {
        Ok(approval) => {
            st.pending.push(approval);
            st.status = "PendingApproval".to_owned();
        },
        Err(e) => {
            push_problem(
                st,
                problem.diagnosis.as_str(),
                problem.confidence,
                label,
                true,
                false,
                Some(cat("could not queue for approval: ", e.as_str())),
                now,
            );
        },
    }
}

/// The status once all problems of an analysis have been routed.
pub open spec fn after_analysis(st: SvcState, problems_found: bool) -> Seq<char> {
    if st.pending@.len() > 0 {
        "PendingApproval"@
    } else if st.in_flight@.len() > 0 {
        "Executing"@
    } else if problems_found {
        "Warning"@
    } else {
        "Active"@
    }
}

/// Settle once all problems of an analysis have been routed; a paused service stays as it
/// is.
pub fn finish_problems(st: &mut SvcState, problems_found: bool)
    ensures
        old(st).paused ==> *final(st) == *old(st),
        !old(st).paused ==> *final(st) == (SvcState { status: final(st).status, ..*old(st) })
            && final(st).status@ == after_analysis(*old(st), problems_found),
{
    if st.paused {
        return ;
    }
    let status = if st.pending.len() > 0 {
        "PendingApproval"
    } else if st.in_flight.len() > 0 {
        "Executing"
    } else if problems_found {
        "Warning"
    } else {
        "Active"
    };
    st.status = status.to_owned();
}

// ── The user's decision ───────────────────────────────────────────────────────

/// Why an approved action does not run.
#[derive(Debug)]
pub enum ApprovalPreflightError {
    /// The approval is settled: the action is not allowed, or there is nothing left to do.
    Resolved(String),
    /// It could not be found out whether the action may run.
    Retry(String),
}

/// Whether an approved action may still run.
pub enum Readiness {
    Ready,
    Resolved(Seq<char>),
    Retry(Seq<char>),
}

/// What a preflight said.
pub open spec fn readiness(r: Result<(), ApprovalPreflightError>) -> Readiness {
    match r {
        Ok(()) => Readiness::Ready,
        Err(ApprovalPreflightError::Resolved(reason)) => Readiness::Resolved(reason@),
        Err(ApprovalPreflightError::Retry(reason)) => Readiness::Retry(reason@),
    }
}

/// Whether an approved action may still run: the policy does not block it now, and it did
/// not run or keep failing of late.
pub open spec fn preflight(
    pol: ExecutionPolicy,
    approval: PendingApproval,
    percent: Seq<char>,
    limited: Result<bool, String>,
) -> Readiness {
    match pol.verdict(approval.action, approval.info.confidence, percent) {
        VerdictModel::Block(reason) => Readiness::Resolved("Blocked by current policy: "@ + reason),
        _ => match limited {
            Ok(false) => Readiness::Ready,
            Ok(true) => Readiness::Resolved("Already completed or repeatedly failed recently"@),
            Err(e) => Readiness::Retry("Safety preflight failed: "@ + e@),
        },
    }
}

/// Whether an approved action may still run: the policy does not block it now, and it did
/// not run or keep failing of late. An approval outlives the policy that it was given under.
pub fn approved_action_ready(
    pol: &ExecutionPolicy,
    approval: &PendingApproval,
    percent: &str,
    limited: Result<bool, String>,
) -> (r: Result<(), ApprovalPreflightError>)
    ensures
        readiness(r) == preflight(*pol, *approval, percent@, limited),
{
    let confidence = Confidence { value: approval.info.confidence, percent: percent.to_owned() };
    if let Verdict::Block(reason) = pol.evaluate(&approval.action, &confidence) {
        return Err(
            ApprovalPreflightError::Resolved(cat("Blocked by current policy: ", reason.as_str())),
        );
    }
    match limited {
        Ok(ran) => {
            if ran {
                Err(
                    ApprovalPreflightError::Resolved(
                        "Already completed or repeatedly failed recently".to_owned(),
                    ),
                )
            } else {
                Ok(())
            }
        },
        Err(e) => Err(
            ApprovalPreflightError::Retry(cat("Safety preflight failed: ", e.as_str())),
        ),
    }
}

/// The approvals without the one of a number, in order.
pub open spec fn others(pending: Seq<PendingApproval>, id: u64) -> Seq<PendingApproval>
    decreases pending.len(),
{
    if pending.len() == 0 {
        Seq::empty()
    } else if pending.last().info.id == id {
        others(pending.drop_last(), id)
    } else {
        others(pending.drop_last(), id).push(pending.last())
    }
}

fn drop_pending(st: &mut SvcState, id: u64)
    requires
        old(st).wf(),
    ensures
        final(st).wf(),
        *final(st) == (SvcState { pending: final(st).pending, ..*old(st) }),
        final(st).pending@ == others(old(st).pending@, id),
{
    let mut all: Vec<PendingApproval> = Vec::new();
    std::mem::swap(&mut all, &mut st.pending);
    let ghost whole = all@;
    let mut kept: Vec<PendingApproval> = Vec::new();
    assert(whole.take(0) =~= Seq::<PendingApproval>::empty());
    for item in it: all
        invariant
            it.seq() == whole,
            kept@ == others(whole.take(it.index() as int), id),
    {
        let ghost next = whole.take(it.index() as int + 1);
        assert(next.drop_last() =~= whole.take(it.index() as int));
        assert(next.last() == item);
        if item.info.id != id {
            kept.push(item);
        }
    }
    assert(whole.take(whole.len() as int) =~= whole);
    st.pending = kept;
}

/// What the queue of approvals said when a decision was to be recorded in it.
pub enum Claim {
    Claimed(PendingApproval),
    /// The approval is gone or was decided already.
    Stale,
    Failed(String),
}

/// What is left to do for a decision.
pub enum DecisionStep {
    /// Hand the job to the executor.
    Run(ExecJob),
    /// Take the approval out of the queue.
    Retire(Result<String, String>),
    /// Record that the user rejected the action of this decision, and take it out of the
    /// queue.
    Rejected(i64, String, Result<String, String>),
    /// Nothing; the approval, if there is one, stays in the queue.
    Keep(Result<String, String>),
}

/// Whether a job is the one of an approval.
pub open spec fn job_of(job: ExecJob, approval: PendingApproval, id: u64) -> bool {
    &&& job.action == approval.action
    &&& job.decision_id == approval.decision_id
    &&& job.baseline == approval.baseline
    &&& job.key@ == approval.action.key()
    &&& job.label@ == approval.info.action@
    &&& job.diagnosis@ == approval.info.diagnosis@
    &&& job.confidence == approval.info.confidence
    &&& opt_view(job.reason) == Some("approved by user"@)
    &&& job.approval_id == Some(id)
}

/// The state once an approval has left the queue.
pub open spec fn decided(before: SvcState, id: u64, after: SvcState) -> bool {
    &&& after == (SvcState {
        pending: after.pending,
        in_flight: after.in_flight,
        recent_problems: after.recent_problems,
        error: after.error,
        status: after.status,
        ..before
    })
    &&& after.pending@ == others(before.pending@, id)
}

/// Whether the user's decision on an approval was taken. `ready` says whether the action, if
/// approved, may still run.
pub open spec fn decision_taken(
    before: SvcState,
    id: u64,
    approved: bool,
    claim: Claim,
    ready: Readiness,
    now: i64,
    r: DecisionStep,
    after: SvcState,
) -> bool {
    &&& after.status@ == settled(after, now)
    &&& match claim {
        Claim::Stale => {
            &&& r is Keep
            &&& said(r->Keep_0, false, "Approval is stale or already resolved"@)
            &&& after == (SvcState { status: after.status, ..before })
        },
        Claim::Failed(e) => {
            &&& r is Keep
            &&& said(r->Keep_0, false, "Approval decision could not be saved: "@ + e@)
            &&& after == (SvcState {
                status: after.status,
                error: after.error,
                ..before
            })
            &&& opt_view(after.error) == Some("Could not save approval decision: "@ + e@)
        },
        Claim::Claimed(approval) => {
            let key = approval.action.key();
            &&& decided(before, id, after)
            &&& if !approved {
                &&& r is Rejected
                &&& r->Rejected_0 == approval.decision_id
                &&& r->Rejected_1@ == approval.info.action@
                &&& said(r->Rejected_2, true, "Action rejected"@)
                &&& after.in_flight == before.in_flight
                &&& after.error == cleared_error(before)
                &&& problem_added(before.recent_problems@, after.recent_problems@)
                &&& summarizes(
                    after.recent_problems@.last(),
                    approval.info.diagnosis@,
                    approval.info.confidence,
                    approval.info.action@,
                    false,
                    false,
                    Some("rejected by user"@),
                    now,
                )
            } else {
                match ready {
                    Readiness::Ready => if listed(before.in_flight@, key) {
                        &&& r is Retire
                        &&& said(r->Retire_0, true, "Action is already executing"@)
                        &&& after.in_flight == before.in_flight
                        &&& after.error == cleared_error(before)
                        &&& after.recent_problems == before.recent_problems
                    } else {
                        &&& r is Run
                        &&& job_of(r->Run_0, approval, id)
                        &&& after.in_flight@.len() > 0
                        &&& after.in_flight@.drop_last() == before.in_flight@
                        &&& after.in_flight@.last()@ == key
                        &&& after.error == before.error
                        &&& after.recent_problems == before.recent_problems
                    },
                    Readiness::Resolved(reason) => {
                        &&& r is Retire
                        &&& said(
                            r->Retire_0,
                            false,
                            "Action is no longer allowed by current safety policy"@,
                        )
                        &&& after.in_flight == before.in_flight
                        &&& after.error == before.error
                        &&& problem_added(before.recent_problems@, after.recent_problems@)
                        &&& summarizes(
                            after.recent_problems@.last(),
                            approval.info.diagnosis@,
                            approval.info.confidence,
                            approval.info.action@,
                            true,
                            false,
                            Some(reason),
                            now,
                        )
                    },
                    Readiness::Retry(reason) => {
                        &&& r is Keep
                        &&& said(
                            r->Keep_0,
                            false,
                            "Approval was saved, but safety checks could not complete; it will retry after restart"@,
                        )
                        &&& after.in_flight == before.in_flight
                        &&& opt_view(after.error) == Some(reason)
                        &&& after.recent_problems == before.recent_problems
                    },
                }
            }
        },
    }
}

/// Take the user's decision on an approval. `ready` says whether the action, if approved,
/// may still run.
pub fn decide_approval(
    st: &mut SvcState,
    id: u64,
    approved: bool,
    claim: Claim,
    ready: Result<(), ApprovalPreflightError>,
    now: i64,
) -> (r: DecisionStep)
    requires
        old(st).wf(),
    ensures
        final(st).wf(),
        decision_taken(*old(st), id, approved, claim, readiness(ready), now, r, *final(st)),
{
    let r = match claim {
        Claim::Stale => DecisionStep::Keep(Err("Approval is stale or already resolved".to_owned())),
        Claim::Failed(e) => {
            st.error = Some(cat("Could not save approval decision: ", e.as_str()));
            DecisionStep::Keep(Err(cat("Approval decision could not be saved: ", e.as_str())))
        },
        Claim::Claimed(approval) => {
            drop_pending(st, id);
            if !approved {
                push_problem(
                    st,
                    approval.info.diagnosis.as_str(),
                    approval.info.confidence,
                    approval.info.action.as_str(),
                    false,
                    false,
                    Some("rejected by user".to_owned()),
                    now,
                );
                if !st.paused {
                    st.error = None;
                }
                DecisionStep::Rejected(
                    approval.decision_id,
                    approval.info.action,
                    Ok("Action rejected".to_owned()),
                )
            } else {
                match ready {
                    Ok(()) => {
                        let key = approval.action.dedup_key();
                        if insert_in_flight(st, key.as_str()) {
                            DecisionStep::Run(
                                ExecJob {
                                    action: approval.action,
                                    decision_id: approval.decision_id,
                                    baseline: approval.baseline,
                                    key,
                                    label: approval.info.action,
                                    diagnosis: approval.info.diagnosis,
                                    confidence: approval.info.confidence,
                                    reason: Some("approved by user".to_owned()),
                                    approval_id: Some(id),
                                },
                            )
                        } else {
                            if !st.paused {
                                st.error = None;
                            }
                            DecisionStep::Retire(Ok("Action is already executing".to_owned()))
                        }
                    },
                    Err(ApprovalPreflightError::Resolved(reason)) => {
                        push_problem(
                            st,
                            approval.info.diagnosis.as_str(),
                            approval.info.confidence,
                            approval.info.action.as_str(),
                            true,
                            false,
                            Some(reason),
                            now,
                        );
                        DecisionStep::Retire(
                            Err("Action is no longer allowed by current safety policy".to_owned()),
                        )
                    },
                    Err(ApprovalPreflightError::Retry(reason)) => {
                        st.error = Some(reason);
                        DecisionStep::Keep(
                            Err(
                                "Approval was saved, but safety checks could not complete; it will retry after restart".to_owned(),
                            ),
                        )
                    },
                }
            }
        },
    };
    settle(st, now);
    r
}

/// Take the user's decision on an approval: an approved action is held against the policy as
/// it is now, and against what ran of late. A job comes out only where the user approved the
/// action, the policy does not block it and it did not run or keep failing of late.
pub fn answer_approval(
    st: &mut SvcState,
    pol: &ExecutionPolicy,
    id: u64,
    approved: bool,
    claim: Claim,
    percent: &str,
    limited: Result<bool, String>,
    now: i64,
) -> (r: DecisionStep)
    requires
        old(st).wf(),
    ensures
        final(st).wf(),
        decision_taken(
            *old(st),
            id,
            approved,
            claim,
            asked_readiness(*pol, claim, percent@, limited),
            now,
            r,
            *final(st),
        ),
        r is Run ==> approved && claim is Claimed && {
            let approval = claim->Claimed_0;
            &&& job_of(r->Run_0, approval, id)
            &&& !(pol.verdict(approval.action, approval.info.confidence, percent@) is Block)
            &&& limited == Ok::<bool, String>(false)
        },
{
    let ready = match &claim {
        Claim::Claimed(approval) => approved_action_ready(pol, approval, percent, limited),
        _ => Ok(()),
    };
    decide_approval(st, id, approved, claim, ready, now)
}

/// Whether the action of a claimed approval may still run.
pub open spec fn asked_readiness(
    pol: ExecutionPolicy,
    claim: Claim,
    percent: Seq<char>,
    limited: Result<bool, String>,
) -> Readiness {
    match claim {
        Claim::Claimed(approval) => preflight(pol, approval, percent, limited),
        _ => Readiness::Ready,
    }
}

/// An action that the policy blocks does not run even if the user approves it: no job comes
/// out, and nothing is in flight that was not.
pub proof fn approval_does_not_outrank_the_policy(
    before: SvcState,
    pol: ExecutionPolicy,
    id: u64,
    approved: bool,
    approval: PendingApproval,
    percent: Seq<char>,
    limited: Result<bool, String>,
    now: i64,
    r: DecisionStep,
    after: SvcState,
)
    requires
        decision_taken(
            before,
            id,
            approved,
            Claim::Claimed(approval),
            preflight(pol, approval, percent, limited),
            now,
            r,
            after,
        ),
        blocked(pol, approval.action),
    ensures
        !(r is Run),
        after.in_flight == before.in_flight,
{
}

/// The error that is left once something unrelated went well: none, unless the service is
/// paused, perhaps because of it.
pub open spec fn cleared_error(st: SvcState) -> Option<String> {
    if st.paused {
        st.error
    } else {
        None
    }
}

/// The end of an approved action that was handed to the executor.
pub fn approval_sent(st: &mut SvcState, key: &str, sent: bool, now: i64) -> (r: Result<
    String,
    String,
>)
    requires
        old(st).wf(),
    ensures
        final(st).wf(),
        *final(st) == (SvcState {
            in_flight: final(st).in_flight,
            error: final(st).error,
            status: final(st).status,
            ..*old(st)
        }),
        final(st).status@ == settled(*final(st), now),
        sent ==> said(r, true, "Approval saved; action queued"@) && final(st).error
            == cleared_error(*old(st)) && final(st).in_flight == old(st).in_flight,
        !sent ==> said(r, false, "Executor is unavailable; approval was saved for retry"@)
            && final(st).error == old(st).error && final(st).in_flight@ == without(
            old(st).in_flight@,
            key@,
        ),
{
    let r = if sent {
        if !st.paused {
            st.error = None;
        }
        Ok("Approval saved; action queued".to_owned())
    } else {
        remove_in_flight(st, key);
        Err("Executor is unavailable; approval was saved for retry".to_owned())
    };
    settle(st, now);
    r
}

// ── What becomes of what is decided ───────────────────────────────────────────

proof fn lemma_others_filter(pending: Seq<PendingApproval>, id: u64)
    ensures
        others(pending, id) == pending.filter(|p: PendingApproval| p.info.id != id),
    decreases pending.len(),
{
    reveal(Seq::filter);
    if pending.len() > 0 {
        lemma_others_filter(pending.drop_last(), id);
    }
}

/// A decision takes the approval of its number out of the queue and no other: every other one
/// is still there, in its order, and nothing comes in. Where the decision could not be taken,
/// the queue stays as it is.
pub proof fn decision_takes_one_approval_out(
    before: SvcState,
    id: u64,
    approved: bool,
    claim: Claim,
    ready: Readiness,
    now: i64,
    r: DecisionStep,
    after: SvcState,
    p: PendingApproval,
)
    requires
        decision_taken(before, id, approved, claim, ready, now, r, after),
    ensures
        claim is Claimed ==> {
            &&& after.pending@ == before.pending@.filter(|p: PendingApproval| p.info.id != id)
            &&& after.pending@.contains(p) <==> before.pending@.contains(p) && p.info.id != id
        },
        !(claim is Claimed) ==> after.pending@ == before.pending@,
{
    if claim is Claimed {
        let keep = |p: PendingApproval| p.info.id != id;
        lemma_others_filter(before.pending@, id);
        if before.pending@.contains(p) && p.info.id != id {
            let i = choose|i: int| 0 <= i < before.pending@.len() && before.pending@[i] == p;
            before.pending@.lemma_filter_contains(keep, i);
        }
        if after.pending@.contains(p) {
            let i = choose|i: int| 0 <= i < after.pending@.len() && after.pending@[i] == p;
            before.pending@.lemma_filter_pred(keep, i);
            before.pending@.lemma_filter_contains_rev(keep, p);
        }
    }
}

/// An action runs on an approval only where the user approved it, and then it is the action
/// that was asked about, under the number and the decision that it was asked under; it is in
/// flight from then on, and nothing else changes its place there. A rejected one does not run.
pub proof fn what_runs_is_what_was_approved(
    before: SvcState,
    id: u64,
    approved: bool,
    claim: Claim,
    ready: Readiness,
    now: i64,
    r: DecisionStep,
    after: SvcState,
)
    requires
        decision_taken(before, id, approved, claim, ready, now, r, after),
    ensures
        r matches DecisionStep::Run(job) ==> {
            &&& approved && claim is Claimed && ready is Ready
            &&& job.action == claim->Claimed_0.action
            &&& job.decision_id == claim->Claimed_0.decision_id
            &&& job.approval_id == Some(id)
            &&& job.key@ == job.action.key()
            &&& after.in_flight@.len() == before.in_flight@.len() + 1
            &&& forall|i: int|
                0 <= i < before.in_flight@.len() ==> after.in_flight@[i]
                    == #[trigger] before.in_flight@[i]
            &&& after.in_flight@[before.in_flight@.len() as int]@ == job.key@
            &&& forall|i: int|
                0 <= i < before.in_flight@.len() ==> (#[trigger] before.in_flight@[i])@
                    != job.key@
        },
        !(r is Run) ==> after.in_flight == before.in_flight,
        claim is Claimed && !approved ==> r is Rejected,
        claim is Claimed && approved && ready is Ready && (forall|i: int|
            0 <= i < before.in_flight@.len() ==> (#[trigger] before.in_flight@[i])@
                != claim->Claimed_0.action.key()) ==> r is Run,
{
    if let DecisionStep::Run(job) = r {
        assert forall|i: int| 0 <= i < before.in_flight@.len() implies after.in_flight@[i]
            == #[trigger] before.in_flight@[i] by {
            assert(after.in_flight@.drop_last()[i] == before.in_flight@[i]);
        }
    }
}

/// Nothing but the queue, what is in flight, the shown problems, the error and the status
/// changes with a decision.
pub proof fn decision_changes_nothing_else(
    before: SvcState,
    id: u64,
    approved: bool,
    claim: Claim,
    ready: Readiness,
    now: i64,
    r: DecisionStep,
    after: SvcState,
)
    requires
        decision_taken(before, id, approved, claim, ready, now, r, after),
    ensures
        after.paused == before.paused,
        after.recent_executions == before.recent_executions,
        after.settings == before.settings,
        after.gaming_until == before.gaming_until,
        after.gaming_manual == before.gaming_manual,
        after.status@ == settled(after, now),
{
}

/// A claimed approval may still run exactly where no list of the policy forbids it now, its
/// confidence is not below the threshold and it did not run or keep failing of late.
pub proof fn approval_is_held_against_the_policy_of_now(
    pol: ExecutionPolicy,
    approval: PendingApproval,
    percent: Seq<char>,
    limited: Result<bool, String>,
)
    ensures
        preflight(pol, approval, percent, limited) is Ready <==> !(pol.verdict(
            approval.action,
            approval.info.confidence,
            percent,
        ) is Block) && limited == Ok::<bool, String>(false),
        preflight(pol, approval, percent, limited) is Retry ==> limited is Err,
        limited == Ok::<bool, String>(true) ==> preflight(pol, approval, percent, limited)
            is Resolved,
{
}

/// A user's action that runs is the one that was asked for, under the decision that was
/// recorded for it; one that the policy holds for confirmation or that the user has to confirm
/// does not run.
pub proof fn request_runs_as_it_was_asked(
    before: SvcState,
    pol: ExecutionPolicy,
    request: UserRequest,
    label: Seq<char>,
    recorded: Result<i64, String>,
    limited: Result<bool, String>,
    now: i64,
    r: UserStep,
    after: SvcState,
)
    requires
        user_action_routed(before, pol, request, label, recorded, limited, now, r, after),
    ensures
        r matches UserStep::Run(job) ==> {
            &&& job.action == request.action
            &&& recorded == Ok::<i64, String>(job.decision_id)
            &&& job.approval_id is None
            &&& job.key@ == request.action.key()
            &&& !request.force_approval
            &&& limited == Ok::<bool, String>(false)
            &&& pol.verdict(request.action, job.confidence, "100"@) is AutoApprove
            &&& forall|i: int|
                0 <= i < before.in_flight@.len() ==> (#[trigger] before.in_flight@[i])@
                    != job.key@
            &&& forall|i: int|
                0 <= i < before.pending@.len() ==> (
                #[trigger] before.pending@[i]).action.key() != job.key@
            &&& after.in_flight@.last()@ == job.key@
            &&& after.in_flight@.drop_last() == before.in_flight@
        },
        !(r is Run) ==> after.in_flight == before.in_flight,
        after.pending == before.pending,
        !occupied(before, request.action.key()) && recorded is Ok && limited == Ok::<
            bool,
            String,
        >(false) && !request.force_approval && pol.verdict(
            request.action,
            Metric { bits: 0x3f80_0000 },
            "100"@,
        ) is AutoApprove ==> r is Run,
        !occupied(before, request.action.key()) && recorded is Ok && (request.force_approval
            || pol.verdict(request.action, Metric { bits: 0x3f80_0000 }, "100"@)
            is RequireApproval) && !(pol.verdict(
            request.action,
            Metric { bits: 0x3f80_0000 },
            "100"@,
        ) is Block) ==> r is Ask,
{
}

/// A fix that is not blocked is either run or asked about, unless it is under way, ran of late
/// or could not be looked up; a job is of the fix that was proposed.
pub proof fn fix_that_may_run_runs(
    before: SvcState,
    pol: ExecutionPolicy,
    problem: Problem,
    label: Seq<char>,
    confidence: Confidence,
    limited: Result<bool, String>,
    decision_id: i64,
    baseline: SystemState,
    now: i64,
    r: ProblemStep,
    after: SvcState,
)
    requires
        problem_routed(
            before,
            pol,
            problem,
            label,
            confidence,
            limited,
            decision_id,
            baseline,
            now,
            r,
            after,
        ),
    ensures
        problem.proposed_fix.action matches Some(action) ==> {
            let v = pol.verdict(action, confidence.value, confidence.percent@);
            &&& r matches ProblemStep::Run(job) ==> job.action == action && job.decision_id
                == decision_id && job.key@ == action.key() && after.in_flight@.last()@
                == action.key() && after.in_flight@.drop_last() == before.in_flight@
            &&& v is AutoApprove && limited == Ok::<bool, String>(false) && !occupied(
                before,
                action.key(),
            ) ==> r is Run
            &&& v is RequireApproval && !occupied(before, action.key()) ==> r is Ask
            &&& v is Block ==> r is Finished && after.recent_problems@.len() > 0
                && after.recent_problems@.last().blocked && after.recent_problems@.last().action@
                == label && opt_view(after.recent_problems@.last().reason) == Some(v->Block_0)
        },
        problem.proposed_fix.action is None ==> r is Finished
            && after.recent_problems@.last().blocked,
        !(r is Run) ==> after.in_flight == before.in_flight,
        after.pending == before.pending,
{
}

/// The user's own actions are judged at full confidence, and confirming them first changes a
/// verdict in one case alone: where it would have let them run.
pub proof fn confirmation_holds_back_what_would_run(
    pol: ExecutionPolicy,
    action: FixAction,
    force: bool,
)
    ensures
        ({
            let v = pol.verdict(action, Metric { bits: 0x3f80_0000 }, "100"@);
            &&& force && v is AutoApprove ==> user_verdict(pol, action, force) is RequireApproval
            &&& !(force && v is AutoApprove) ==> user_verdict(pol, action, force) == v
        }),
{
}

// ── What the operations do ────────────────────────────────────────────────────

/// Once an approval is claimed it leaves the queue, and every other stays, in order; an approval
/// that could not be claimed changes nothing about the queue.
pub proof fn claimed_approval_leaves_the_queue_alone(
    st: &mut SvcState,
    id: u64,
    approved: bool,
    claim: Claim,
    ready: Result<(), ApprovalPreflightError>,
    now: i64,
    r: DecisionStep,
    i: int,
)
    requires
        call_ensures(decide_approval, (st, id, approved, claim, ready, now), r),
    ensures
        claim is Claimed ==> final(st).pending@ == old(st).pending@.filter(
            |p: PendingApproval| p.info.id != id,
        ),
        claim is Claimed && 0 <= i < old(st).pending@.len() && old(st).pending@[i].info.id != id
            ==> final(st).pending@.contains(old(st).pending@[i]),
        !(claim is Claimed) ==> final(st).pending@ == old(st).pending@ && r is Keep,
        !approved ==> !(r is Run),
        r is Run ==> ready is Ok,
{
    if claim is Claimed {
        lemma_others_filter(old(st).pending@, id);
        if 0 <= i < old(st).pending@.len() && old(st).pending@[i].info.id != id {
            old(st).pending@.lemma_filter_contains(|p: PendingApproval| p.info.id != id, i);
        }
    }
}

/// The same holds where the policy is asked on the way; a job runs only where the user approved it
/// and the policy of now does not block it.
pub proof fn answered_approval_leaves_the_queue_alone(
    st: &mut SvcState,
    pol: &ExecutionPolicy,
    id: u64,
    approved: bool,
    claim: Claim,
    percent: &str,
    limited: Result<bool, String>,
    now: i64,
    r: DecisionStep,
)
    requires
        call_ensures(answer_approval, (st, pol, id, approved, claim, percent, limited, now), r),
    ensures
        claim is Claimed ==> final(st).pending@ == old(st).pending@.filter(
            |p: PendingApproval| p.info.id != id,
        ),
        !(claim is Claimed) ==> final(st).pending@ == old(st).pending@,
        r is Run ==> approved && (claim matches Claim::Claimed(p) && !(pol.verdict(
            p.action,
            p.info.confidence,
            percent@,
        ) is Block)) && limited == Ok::<bool, String>(false),
{
    if claim is Claimed {
        lemma_others_filter(old(st).pending@, id);
    }
}

/// An approval is shown with the request's or the problem's own words, and with what its action
/// does, and gets its number from the queue.
pub proof fn approval_shows_what_it_is_about(
    problem: &Problem,
    reason: String,
    label: String,
    told: Explanation,
    now: i64,
    info: ApprovalInfo,
    id: u64,
    action: FixAction,
    decision_id: i64,
    baseline: SystemState,
    queued: PendingApproval,
)
    requires
        call_ensures(problem_approval, (problem, reason, label, told, now), info),
        call_ensures(queued_approval, (info, id, action, decision_id, baseline), queued),
    ensures
        queued.info.id == id,
        queued.info.diagnosis@ == problem.diagnosis@ && queued.info.root_cause@
            == problem.root_cause@ && queued.info.side_effects@ == problem.side_effects@
            && queued.info.undo_instructions@ == problem.undo_instructions@,
        queued.info.confidence == problem.confidence,
        queued.info.action == label && queued.info.reason == reason,
        queued.info.action_summary == told.summary && queued.info.target == told.target
            && queued.info.target_details == told.target_details && queued.info.reversible
            == told.reversible,
        queued.info.created_at == now,
        queued.action == action && queued.decision_id == decision_id && queued.baseline == baseline,
{
}

/// A user's own action is shown for approval with the request's words and in full confidence.
pub proof fn users_approval_is_certain(
    request: &UserRequest,
    reason: String,
    label: String,
    told: Explanation,
    now: i64,
    info: ApprovalInfo,
)
    requires
        call_ensures(user_approval, (request, reason, label, told, now), info),
    ensures
        info.diagnosis@ == request.diagnosis@ && info.action == label && info.reason == reason,
        info.confidence == (Metric { bits: 0x3f80_0000 }),
        info.target == told.target && info.reversible == told.reversible && info.created_at == now,
{
}

/// An action that runs, is queued or awaits a decision is not begun again; any other is, under its
/// own identity.
pub proof fn one_action_is_not_begun_twice(
    st: &SvcState,
    action: &FixAction,
    r: Result<String, String>,
    i: int,
)
    requires
        call_ensures(begin_user_action, (st, action), r),
    ensures
        0 <= i < st.in_flight@.len() && st.in_flight@[i]@ == action.key() ==> r is Err,
        0 <= i < st.pending@.len() && st.pending@[i].action.key() == action.key() ==> r is Err,
        st.in_flight@.len() == 0 && st.pending@.len() == 0 ==> r is Ok,
        r matches Ok(key) ==> key@ == action.key(),
{
    under_way_is_in_flight_or_asked(*st, action.key());
}

/// A user's own action that could not be recorded ends, and so does one that the policy blocks;
/// one that the policy approves is held to its rate, and one that it does not is asked for.
pub proof fn users_action_goes_by_the_policy(
    st: &mut SvcState,
    pol: &ExecutionPolicy,
    action: &FixAction,
    label: &str,
    diagnosis: &str,
    force_approval: bool,
    recorded: Result<i64, String>,
    now: i64,
    r: UserRoute,
)
    requires
        call_ensures(
            decide_user_action,
            (st, pol, action, label, diagnosis, force_approval, recorded, now),
            r,
        ),
    ensures
        recorded is Err ==> r is Finished && *final(st) == *old(st),
        recorded is Ok && user_verdict(*pol, *action, force_approval) is Block ==> r is Finished,
        recorded is Ok && user_verdict(*pol, *action, force_approval) is AutoApprove
            ==> r is CheckRate && *final(st) == *old(st),
        recorded is Ok && user_verdict(*pol, *action, force_approval) is RequireApproval
            ==> r is AskApproval && *final(st) == *old(st),
        final(st).pending == old(st).pending && final(st).in_flight == old(st).in_flight,
{
}

/// An action is set under way only where its rate is known and not exceeded.
pub proof fn rate_is_known_before_an_action_runs(
    st: &mut SvcState,
    key: &str,
    label: &str,
    diagnosis: &str,
    limited: Result<bool, String>,
    now: i64,
    r: Result<(), String>,
)
    requires
        call_ensures(rate_user_action, (st, key, label, diagnosis, limited, now), r),
    ensures
        r is Ok <==> limited == Ok::<bool, String>(false),
        r is Err ==> final(st).in_flight == old(st).in_flight,
        r is Ok ==> listed(final(st).in_flight@, key@),
        limited is Err ==> *final(st) == *old(st),
        final(st).pending == old(st).pending,
{
}

/// An automatic fix is started only where its rate is known and not exceeded and nothing of its
/// kind is under way or asked for; it is then under way, behind the others.
pub proof fn fix_is_started_once(
    st: &mut SvcState,
    key: &str,
    limited: Result<bool, String>,
    r: bool,
)
    requires
        call_ensures(start_auto_fix, (st, key, limited), r),
    ensures
        r ==> limited == Ok::<bool, String>(false) && !occupied(*old(st), key@),
        limited == Ok::<bool, String>(false) && !occupied(*old(st), key@) ==> r,
        !r ==> *final(st) == *old(st),
        r ==> final(st).in_flight@.len() == old(st).in_flight@.len() + 1 && final(st).in_flight@.last()@ == key@ && final(st).pending == old(st).pending,
{
}

/// What could not be handed to the executor is no longer under way, and nothing else is taken off;
/// what was handed over stays under way.
pub proof fn unsent_action_is_no_longer_under_way(
    st: &mut SvcState,
    key: &str,
    sent: bool,
    now: i64,
    r: Result<String, String>,
)
    requires
        call_ensures(queue_user_action, (st, key, sent, now), r),
    ensures
        r is Ok <==> sent,
        sent ==> final(st).in_flight == old(st).in_flight,
        !sent ==> final(st).in_flight@ == old(st).in_flight@.filter(|k: String| k@ != key@),
        final(st).pending == old(st).pending,
{
    let name = key@;
    others_stay_in_flight(old(st).in_flight@, name);
    assert((|k: String| k@ != key@) =~= (|t: String| t@ != name));
}

/// The same holds of an automatic fix, which is reported where it was not started.
pub proof fn unsent_fix_is_no_longer_under_way(st: &mut SvcState, key: &str, sent: bool)
    requires
        call_ensures(auto_fix_sent, (st, key, sent), ()),
    ensures
        sent ==> final(st).in_flight == old(st).in_flight && final(st).status@ == "Executing"@
            && final(st).error == old(st).error,
        !sent ==> final(st).in_flight@ == old(st).in_flight@.filter(|k: String| k@ != key@)
            && final(st).error is Some && final(st).status == old(st).status,
{
    let name = key@;
    others_stay_in_flight(old(st).in_flight@, name);
    assert((|k: String| k@ != key@) =~= (|t: String| t@ != name));
}

/// The same holds of an approved action, whose approval is kept.
pub proof fn unsent_approved_action_is_no_longer_under_way(
    st: &mut SvcState,
    key: &str,
    sent: bool,
    now: i64,
    r: Result<String, String>,
)
    requires
        call_ensures(approval_sent, (st, key, sent, now), r),
    ensures
        r is Ok <==> sent,
        sent ==> final(st).in_flight == old(st).in_flight,
        !sent ==> final(st).in_flight@ == old(st).in_flight@.filter(|k: String| k@ != key@)
            && final(st).error == old(st).error,
        final(st).pending == old(st).pending,
{
    let name = key@;
    others_stay_in_flight(old(st).in_flight@, name);
    assert((|k: String| k@ != key@) =~= (|t: String| t@ != name));
}

/// An approval that was queued waits behind the others, and one that could not be queued is shown
/// as blocked and waits nowhere.
pub proof fn queued_approval_waits_behind_the_others(
    st: &mut SvcState,
    queued: Result<PendingApproval, String>,
    problem: &Problem,
    label: &str,
    now: i64,
)
    requires
        call_ensures(approval_queued, (st, queued, problem, label, now), ()),
    ensures
        queued matches Ok(p) ==> final(st).pending@ == old(st).pending@.push(p) && final(st).status@ == "PendingApproval"@ && final(st).recent_problems == old(st).recent_problems,
        queued is Err ==> final(st).pending == old(st).pending && final(st).recent_problems@.last().blocked,
        final(st).in_flight == old(st).in_flight,
{
}

/// The same holds of a user's own action.
pub proof fn users_approval_waits_behind_the_others(
    st: &mut SvcState,
    queued: Result<PendingApproval, String>,
    label: &str,
    diagnosis: &str,
    now: i64,
    r: Result<String, String>,
)
    requires
        call_ensures(approval_user_action, (st, queued, label, diagnosis, now), r),
    ensures
        r is Ok <==> queued is Ok,
        queued matches Ok(p) ==> final(st).pending@ == old(st).pending@.push(p),
        queued is Err ==> final(st).pending == old(st).pending && final(st).recent_problems@.last().blocked,
        final(st).in_flight == old(st).in_flight,
{
}

/// A problem whose fix is not known, or that the policy blocks, ends with nothing run and nothing
/// asked for; one that needs approval is asked for unless it is under way or asked for already.
pub proof fn problem_goes_by_the_policy(
    st: &mut SvcState,
    pol: &ExecutionPolicy,
    problem: &Problem,
    label: &str,
    confidence: &Confidence,
    now: i64,
    r: ProblemRoute,
)
    requires
        call_ensures(route_problem, (st, pol, problem, label, confidence, now), r),
    ensures
        problem.proposed_fix.action is None ==> r is Finished,
        problem.proposed_fix.action matches Some(a) ==> {
            let v = pol.verdict(a, confidence.value, confidence.percent@);
            &&& v is Block ==> r is Finished
            &&& v is AutoApprove ==> r is CheckRate
            &&& v is RequireApproval && occupied(*old(st), a.key()) ==> r is Finished
            &&& v is RequireApproval && !occupied(*old(st), a.key()) ==> r is AskApproval
        },
        final(st).pending == old(st).pending && final(st).in_flight == old(st).in_flight,
{
}

/// Once the problems of an analysis are routed the status says what is left of them: approvals
/// first, then what runs, then that there were some; a paused service stays as it is.
pub proof fn status_says_what_is_left(st: &mut SvcState, found: bool)
    requires
        call_ensures(finish_problems, (st, found), ()),
    ensures
        old(st).paused ==> *final(st) == *old(st),
        !old(st).paused && old(st).pending@.len() > 0 ==> final(st).status@ == "PendingApproval"@,
        !old(st).paused && old(st).pending@.len() == 0 && old(st).in_flight@.len() > 0 ==> final(st).status@ == "Executing"@,
        !old(st).paused && old(st).pending@.len() == 0 && old(st).in_flight@.len() == 0 && found
            ==> final(st).status@ == "Warning"@,
        !old(st).paused && old(st).pending@.len() == 0 && old(st).in_flight@.len() == 0 && !found
            ==> final(st).status@ == "Active"@,
        final(st).pending == old(st).pending && final(st).error == old(st).error,
{
}

/// Something that went well clears the error, unless the service is paused.
pub proof fn error_stays_while_paused(st: SvcState)
    ensures
        st.paused ==> cleared_error(st) == st.error,
        !st.paused ==> cleared_error(st) is None,
{
}

/// A job runs the very action that was asked for or proposed, under that action's identity and
/// for the decision it came from.
pub proof fn job_is_of_its_action(
    request: &UserRequest,
    id: i64,
    label: &str,
    a: ExecJob,
    action: &FixAction,
    problem: &Problem,
    baseline: &SystemState,
    b: ExecJob,
)
    requires
        call_ensures(user_job, (request, id, label), a),
        call_ensures(fix_job, (action, problem, id, baseline, label), b),
    ensures
        a.action == request.action && a.key@ == request.action.key() && a.label@ == label@
            && a.decision_id == id,
        b.action == *action && b.key@ == action.key() && b.label@ == label@ && b.decision_id == id
            && b.diagnosis@ == problem.diagnosis@ && b.confidence == problem.confidence,
{
}

/// The job of an approved action keeps what was shown for approval: its words, its confidence and
/// the state that it was proposed in.
pub proof fn approved_job_keeps_what_was_shown(
    st: &mut SvcState,
    id: u64,
    approved: bool,
    approval: PendingApproval,
    ready: Result<(), ApprovalPreflightError>,
    now: i64,
    job: ExecJob,
)
    requires
        call_ensures(
            decide_approval,
            (st, id, approved, Claim::Claimed(approval), ready, now),
            DecisionStep::Run(job),
        ),
    ensures
        approved && ready is Ok,
        job.action == approval.action && job.key@ == approval.action.key(),
        job.label@ == approval.info.action@ && job.diagnosis@ == approval.info.diagnosis@
            && job.confidence == approval.info.confidence,
        job.baseline == approval.baseline && job.decision_id == approval.decision_id,
        job.approval_id == Some(id) && opt_view(job.reason) == Some("approved by user"@),
{
}

/// A user's own job is certain, gives the user's reason and needs no approval; a fix that runs by
/// itself keeps the state that it was proposed in.
pub proof fn jobs_say_where_they_come_from(
    request: &UserRequest,
    id: i64,
    label: &str,
    a: ExecJob,
    action: &FixAction,
    problem: &Problem,
    baseline: &SystemState,
    b: ExecJob,
)
    requires
        call_ensures(user_job, (request, id, label), a),
        call_ensures(fix_job, (action, problem, id, baseline, label), b),
    ensures
        a.confidence == (Metric { bits: 0x3f80_0000 }) && opt_view(a.reason) == Some(
            request.reason@,
        ) && a.approval_id is None && a.diagnosis@ == request.diagnosis@,
        a.baseline.failed_services@.len() == 0 && a.baseline.collected_at == 0,
        b.reason is None && b.approval_id is None && baseline.same_as(&b.baseline),
        b.baseline.cpu_usage_percent == baseline.cpu_usage_percent
            && b.baseline.memory_usage_percent == baseline.memory_usage_percent
            && b.baseline.disk_usage_percent == baseline.disk_usage_percent,
{
}

/// An answer says how it went, and what is said is its message, either way.
pub proof fn answer_says_how_it_went(message: String, ok: bool, text: Seq<char>)
    ensures
        said(Ok(message), ok, text) <==> ok && message@ == text,
        said(Err(message), ok, text) <==> !ok && message@ == text,
{
}

} // verus!
