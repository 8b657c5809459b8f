use eir_svc::execution::{
    after_record, after_restore, after_second_record, exec_outcome, exec_timeout, fold_execution,
    requeue_approval, run_result, undo_outcome, Commit, RecordStep, Recorded, RestoreStep, RunEnd,
    DEFAULT_TIMEOUT_SECS,
};
use eir_svc::models::{ExecutionResult, FixAction, RegistryUndo};
use eir_svc::routing::{user_job, UserRequest};
use eir_svc::state::{insert_in_flight, push_execution, SvcState};

fn reset() -> FixAction {
    FixAction::RegistryReset {
        key_path: "HKLM\\X".into(),
        value_name: "V".into(),
        value_data: "1".into(),
    }
}

fn undo() -> RegistryUndo {
    RegistryUndo {
        key_path: "HKLM\\X".into(),
        value_name: "V".into(),
        prior_existed: false,
        prior_kind: None,
        prior_data: None,
        applied_kind: None,
        applied_data: None,
    }
}

fn result(success: bool, undo: Option<RegistryUndo>) -> ExecutionResult {
    ExecutionResult {
        action: "a".into(),
        success,
        output: "out".into(),
        undo,
    }
}

#[test]
fn a_run_ends_in_a_result() {
    assert_eq!(exec_timeout(&FixAction::SfcScan, 7_200), 7_200);
    assert_eq!(exec_timeout(&reset(), 7_200), DEFAULT_TIMEOUT_SECS);
    let (kept, stands_in) = run_result("L", RunEnd::Finished(result(true, None)), 600);
    assert!(kept.success && !stands_in);
    let (late, stands_in) = run_result("L", RunEnd::TimedOut, 600);
    assert!(stands_in && !late.success);
    assert_eq!(late.output, "execution exceeded 10m and was abandoned");
    let (gone, _) = run_result("L", RunEnd::Panicked, 600);
    assert_eq!(gone.output, "execution task panicked");
    assert_eq!(gone.action, "L");
    assert!(requeue_approval(true, Some(1)));
    assert!(!requeue_approval(true, None));
    assert!(!requeue_approval(false, Some(1)));
}

#[test]
fn a_registry_change_whose_undo_is_lost_is_taken_back() {
    let step = after_record(
        result(true, Some(undo())),
        &reset(),
        false,
        Err("full".into()),
    );
    let (kept, why) = match step {
        RecordStep::Restore(kept, back, why) => {
            assert_eq!(back.value_name, "V");
            (kept, why)
        }
        RecordStep::Done(_) => panic!("expected a restore"),
    };
    match after_restore(kept, &why, Some(4), Ok("restored".into())) {
        RestoreStep::RecordAgain(again, requeue) => {
            assert!(requeue && !again.success);
            assert_eq!(
                again.output,
                "Registry reset was rolled back because its undo could not be stored (full): restored"
            );
            let end = after_second_record(again, requeue, Err("still".into()));
            assert!(end
                .result
                .output
                .ends_with("; the rollback audit could not be stored: still"));
        }
        RestoreStep::Done(_) => panic!("expected to record again"),
    }
    match after_restore(result(true, None), "full", None, Err("denied".into())) {
        RestoreStep::Done(end) => assert!(end.result.output.contains("denied")),
        RestoreStep::RecordAgain(..) => panic!("expected the end"),
    }
}

#[test]
fn other_outcomes_are_recorded_as_they_are() {
    let commit = Commit {
        execution_id: 5,
        undo_id: Some(6),
    };
    match after_record(result(true, None), &FixAction::SfcScan, true, Ok(commit)) {
        RecordStep::Done(end) => {
            assert!(end.refresh_pending);
            assert_eq!(end.commit.and_then(|c| c.undo_id), Some(6));
        }
        RecordStep::Restore(..) => panic!("nothing to restore"),
    }
    match after_record(
        result(false, None),
        &FixAction::SfcScan,
        true,
        Err("x".into()),
    ) {
        RecordStep::Done(end) => assert_eq!(
            end.result.output,
            "out; execution audit and approval transition failed: x"
        ),
        RecordStep::Restore(..) => panic!("nothing to restore"),
    }
    match after_record(result(true, None), &reset(), false, Err("x".into())) {
        RecordStep::Done(end) => assert!(!end.result.success),
        RecordStep::Restore(..) => panic!("nothing to restore"),
    }
}

#[test]
fn an_outcome_tells_of_its_job() {
    let job = user_job(
        &UserRequest {
            action: reset(),
            diagnosis: "asked",
            reason: "by user",
            force_approval: false,
        },
        7,
        "Reset V",
    );
    assert_eq!(job.key, "registry_reset|hklm\\x|v");
    assert_eq!(job.decision_id, 7);
    let end = Recorded {
        result: result(true, None),
        commit: Some(Commit {
            execution_id: 1,
            undo_id: Some(3),
        }),
        refresh_pending: true,
    };
    let outcome = exec_outcome(job, end);
    assert_eq!(outcome.label, "Reset V");
    assert_eq!(outcome.exec_action, "a");
    assert_eq!(outcome.undo_id, Some(3));
    assert_eq!(outcome.reason.as_deref(), Some("by user"));
    assert!(outcome.success && outcome.refresh_pending);
}

#[test]
fn an_undo_is_offered_until_it_is_used() {
    let mut st = SvcState::default();
    push_execution(&mut st, "Reset", true, "ok", Some(9), 1);
    insert_in_flight(&mut st, "other");
    let outcome = undo_outcome("HKLM\\X", "V", 9, Ok("restored".into()));
    assert_eq!(outcome.label, "Undo registry HKLM\\X\\V");
    fold_execution(&mut st, outcome, None, 1_000);
    assert_eq!(st.recent_executions.len(), 2);
    assert_eq!(st.recent_executions[0].undo_id, None);
    assert_eq!(st.recent_problems.len(), 1);
    assert_eq!(st.status, "Executing");
    let failed = undo_outcome("HKLM\\X", "V", 9, Err("changed".into()));
    assert_eq!(failed.cleared_undo_id, None);
    assert!(!failed.success);
}
