use eir_svc::commands::{
    advisor_settings_saved, app_key_of, app_note_saved, app_setting_changed, app_setting_saved,
    ask_done, begin_ask, begin_disk_scan, begin_provider_test, begin_restart, begin_startup_scan,
    clear_ask, clear_executions, clear_problems, disk_scan_done, disk_target, fail, find_retry,
    finish_answer, finish_update, fold_update, history_cleared, learned_fact_changed,
    may_clear_history, may_note_app, may_set_app, note_guidance, note_incomplete, provider_missing,
    provider_test_result, recent_execution_lines, recent_problem_lines, reject_ask, restart_failed,
    restore_cycle, run_updates_now, seed_last_run, set_gaming, settings_rejected, settings_saved,
    settings_unsaved, settle_startup, sort_attachments, start_retry, start_scheduled_update,
    startup_action, startup_scan_done, toggle_pause, undo_claimed, unfinished_cycle,
    update_progress, updater_settings_saved, AnswerEnd, Attachment, CycleSummary, GuidanceEnd,
    PowerEdge, ProviderReply, StartupFound,
};
use eir_svc::cycle::LoopState;
use eir_svc::metric::{Amount, Metric};
use eir_svc::models::FixAction;
use eir_svc::proto::{AdvisorSettingsView, AskEntry, StartupToggle, UiSettings, UpdaterAppRow};
use eir_svc::state::{push_execution, push_problem, SvcState, ASK_CAP};

const NOW: i64 = 1_000;

fn resting() -> LoopState {
    LoopState {
        cycle_count: 0,
        last_cycle_at: 0,
        react_at: None,
        was_gaming: false,
        last_fingerprint: None,
        last_analysis_at: None,
        analysis_running: false,
    }
}

fn settings() -> UiSettings {
    UiSettings {
        confidence_threshold: Metric {
            bits: 0.8f32.to_bits(),
        },
        rest: String::new(),
    }
}

fn row(id: &str, state: &str) -> UpdaterAppRow {
    UpdaterAppRow {
        id: id.into(),
        name: id.into(),
        state: state.into(),
        ignored: false,
        note: String::new(),
        rest: String::new(),
    }
}

fn ok(text: &str) -> Result<String, String> {
    Ok(text.to_string())
}

fn err(text: &str) -> Result<String, String> {
    Err(text.to_string())
}

#[test]
fn pausing_twice_changes_nothing() {
    let mut st = SvcState::default();
    assert_eq!(toggle_pause(&mut st, NOW), ok("Monitoring paused"));
    assert_eq!(st.status, "Paused");
    assert_eq!(toggle_pause(&mut st, NOW), ok("Monitoring resumed"));
    assert_eq!(st.status, "Active");
    assert!(!st.paused);
}

#[test]
fn a_game_starts_and_ends() {
    let mut st = SvcState::default();
    let mut lp = resting();
    let (edge, said) = set_gaming(&mut st, &mut lp, true, false, NOW, 5);
    assert!(matches!(edge, PowerEdge::Boost));
    assert_eq!(said, ok("Game Mode enabled"));
    assert!(lp.was_gaming);
    let (edge, _) = set_gaming(&mut st, &mut lp, true, false, NOW, 6);
    assert!(matches!(edge, PowerEdge::Nothing));
    lp.last_fingerprint = Some("x".into());
    let (edge, said) = set_gaming(&mut st, &mut lp, false, true, NOW, 7);
    assert!(matches!(edge, PowerEdge::Restore));
    assert_eq!(said, ok("Game Mode disabled"));
    assert!(lp.react_at.is_some() && lp.last_fingerprint.is_none());
}

#[test]
fn a_provider_is_tried_out() {
    let mut running = false;
    assert_eq!(
        begin_provider_test(&mut running, Err("no key".into())),
        Err("Provider configuration is invalid: no key".to_string())
    );
    assert!(!running);
    assert!(begin_provider_test(&mut running, Ok(())).is_ok());
    assert!(running);
    assert_eq!(
        begin_provider_test(&mut running, Err("no key".into())),
        Err("A provider test is already running".to_string())
    );
    assert_eq!(
        provider_test_result(&mut running, "p", "m", ProviderReply::Text(" hi ".into())),
        ok("p / m responded successfully")
    );
    assert_eq!(
        provider_test_result(&mut running, "p", "m", ProviderReply::Text(" ".into())),
        err("p / m returned no text")
    );
    assert_eq!(
        provider_test_result(&mut running, "p", "m", ProviderReply::Failed("x".into())),
        err("p / m failed: x")
    );
    assert_eq!(
        provider_test_result(&mut running, "p", "m", ProviderReply::TimedOut),
        err("p / m timed out after 120 seconds")
    );
}

#[test]
fn settings_are_saved_or_not() {
    let mut st = SvcState::default();
    provider_missing(&mut st, "no key");
    assert_eq!(st.status, "Error");
    assert_eq!(
        st.error.as_deref(),
        Some("AI provider not configured: no key — fix it in Settings")
    );
    assert_eq!(
        settings_saved(&mut st, settings(), false, false, NOW),
        ok("Settings saved and applied")
    );
    assert_eq!(st.error, None);
    assert_eq!(
        settings_saved(&mut st, settings(), true, true, NOW),
        ok("Settings saved; restart portable Eir to apply collector changes")
    );
    assert_eq!(
        settings_saved(&mut st, settings(), true, false, NOW),
        ok("Settings saved; restarting service")
    );
    assert_eq!(
        settings_rejected(&mut st, "bad"),
        err("Settings not applied: bad")
    );
    assert_eq!(
        settings_unsaved(&mut st, "full"),
        err("Settings could not be saved: full")
    );
    assert_eq!(st.error.as_deref(), Some("Save settings: full"));
    assert!(restart_failed(&mut st, NOW).is_err());
    fail(&mut st, "Policy", "broken");
    assert_eq!(st.error.as_deref(), Some("Policy: broken"));
}

#[test]
fn one_update_check_runs_at_a_time() {
    let mut st = SvcState::default();
    assert!(!update_progress(&mut st, "late".into()));
    assert_eq!(run_updates_now(&mut st), ok("Update check started"));
    assert_eq!(
        run_updates_now(&mut st),
        err("An update check is already running")
    );
    assert!(may_clear_history(&st).is_err());
    assert!(update_progress(&mut st, "half".into()));
    assert_eq!(st.updater.phase, "half");
    let summary = unfinished_cycle(true, 45, false, NOW);
    assert_eq!(
        summary.notes,
        ["update cycle exceeded 45m and was stopped"]
    );
    assert_eq!(fold_update(&mut st, summary, vec![row("a", "failed")]), NOW);
    assert!(!st.updater_running);
    finish_update(
        &mut st,
        Err("full".into()),
        Amount { bits: 0 },
        None,
        true,
        60,
    );
    assert_eq!(st.updater.phase, "idle");
    assert_eq!(st.updater.next_run, NOW + 60);
    assert_eq!(
        st.updater.notes[1],
        "failed to persist update completion: full"
    );
    assert_eq!(app_key_of(" ÄPP "), "äpp");
    assert_eq!(find_retry(&st, "a", true).map(|r| r.id), ok("a"));
    assert_eq!(
        find_retry(&st, "b", true).map(|r| r.id),
        err("Only a currently failed app can be retried")
    );
    assert_eq!(
        start_retry(&mut st, "A", true),
        ok("Re-checking A with saved guidance")
    );
    let targeted = CycleSummary {
        targeted: true,
        completed_at: NOW + 9,
        clean_at: 0,
        notes: vec![],
        cost_usd: Amount { bits: 0 },
    };
    assert_eq!(
        fold_update(&mut st, targeted, vec![row("a", "current")]),
        NOW
    );
    assert_eq!(st.updater.apps[0].state, "current");
    assert_eq!(
        history_cleared(&mut st, Err("locked".into()), Ok(()), vec![]),
        err("Update history could not be cleared: locked")
    );
    assert!(!st.updater.apps.is_empty());
    assert_eq!(
        history_cleared(&mut st, Ok(()), Err("x".into()), vec![]),
        err("History cleared, but learned update facts remain: x")
    );
    assert_eq!(
        history_cleared(&mut st, Ok(()), Ok(()), vec![]),
        ok("Update history cleared")
    );
    assert!(st.updater.apps.is_empty());
    st.paused = true;
    assert_eq!(
        run_updates_now(&mut st),
        err("Resume monitoring before running updates")
    );
}

#[test]
fn the_last_check_is_restored() {
    let mut st = SvcState::default();
    st.updater.last_run = 5;
    assert!(!restore_cycle(&mut st, 4, vec![], vec![], &vec![], &vec![]));
    assert!(restore_cycle(
        &mut st,
        5,
        vec!["n".into()],
        vec![row("a", "failed")],
        &vec!["A".into()],
        &vec![("a".into(), "hold".into())]
    ));
    assert!(st.updater.apps[0].ignored);
    assert_eq!(st.updater.apps[0].note, "hold");
    assert!(may_set_app(&st, &vec![], "a").is_ok());
    assert!(may_set_app(&st, &vec![], "b").is_err());
    assert!(may_set_app(&st, &vec![], "").is_err());
    assert!(may_note_app(&st, &vec![], "A").is_ok());
    assert!(may_note_app(&st, &vec!["b".into()], "b").is_ok());
    assert!(may_note_app(&st, &vec!["b".into()], "B").is_err());
    assert!(!note_incomplete(&mut st, true, row("w", "warning")));
    assert!(note_incomplete(&mut st, false, row("w", "warning")));
    assert_eq!(
        st.updater.notes,
        ["The last update check was incomplete; run it again for fresh evidence."]
    );
    assert_eq!(st.updater.apps[0].id, "w");
    st.updater.last_clean_run = 5;
    assert!(!note_incomplete(&mut st, false, row("w", "warning")));
    assert_eq!(seed_last_run(3, 9, 9), 3);
    assert_eq!(seed_last_run(0, 4, 9), 9);
    assert_eq!(
        updater_settings_saved(&mut st, Err("ro".into()), true, "s".into(), 60, NOW),
        err("Updater settings could not be saved: ro")
    );
    assert!(!st.updater.enabled);
    assert_eq!(
        updater_settings_saved(&mut st, Ok(()), true, "s".into(), 60, NOW),
        ok("Updater settings saved")
    );
    assert!(st.updater.enabled);
    let mut summary = unfinished_cycle(false, 1, true, NOW);
    note_guidance(&mut summary, GuidanceEnd::Unsaved("x".into()));
    note_guidance(&mut summary, GuidanceEnd::Invalid("y".into()));
    note_guidance(&mut summary, GuidanceEnd::Saved);
    assert_eq!(summary.notes.len(), 3);
}

#[test]
fn questions_are_answered_newest_first() {
    let mut st = SvcState::default();
    assert_eq!(begin_ask(&mut st), ok("Question accepted"));
    assert!(st.ask.as_ref().is_some_and(|ask| ask.running));
    for n in 0..ASK_CAP as i64 + 3 {
        let entry = AskEntry {
            question: format!("q{n}"),
            answer: String::new(),
            at: n,
            attachments: vec![],
        };
        ask_done(&mut st, Ok(entry), n);
    }
    assert_eq!(st.ask_entries.len(), ASK_CAP);
    assert_eq!(st.ask_entries[0].question, "q12");
    ask_done(&mut st, Err("x".into()), NOW);
    assert_eq!(
        st.ask.as_ref().and_then(|ask| ask.error.clone()).as_deref(),
        Some("Couldn't answer that: x")
    );
    assert_eq!(reject_ask(&mut st, "later"), err("later"));
    assert_eq!(clear_ask(&mut st, Some("not now")), err("not now"));
    assert_eq!(st.ask_entries.len(), ASK_CAP);
    assert_eq!(st.last_ask_at, NOW);
    assert_eq!(clear_ask(&mut st, None), ok("Ask history cleared"));
    assert_eq!(st.last_ask_at, 0);
    assert!(st.ask_entries.is_empty());
    assert_eq!(
        finish_answer(AnswerEnd::Text(" yes ".into()), true, 2),
        ok("(Note: your AI provider can't read images, so 2 attached image(s) weren't analysed.)\n\nyes")
    );
    assert_eq!(
        finish_answer(AnswerEnd::Text(" ".into()), true, 2),
        err("the model returned an empty answer")
    );
    assert_eq!(
        finish_answer(AnswerEnd::TimedOut, false, 0),
        err("answering timed out")
    );
    assert_eq!(
        finish_answer(AnswerEnd::Panicked, false, 0),
        err("the answer task panicked")
    );
    let sorted = sort_attachments(&vec![
        Attachment {
            name: "a.png".into(),
            kind: "image".into(),
            content: "AA".into(),
            media_type: "image/png".into(),
        },
        Attachment {
            name: "b.txt".into(),
            kind: "text".into(),
            content: "hello".into(),
            media_type: String::new(),
        },
    ]);
    assert_eq!(sorted.labels, ["a.png", "b.txt"]);
    assert_eq!(sorted.images.len(), 1);
    assert_eq!(sorted.texts, [("b.txt".to_string(), "hello".to_string())]);
}

#[test]
fn a_click_names_an_entry_of_the_last_scan() {
    let mut st = SvcState::default();
    assert_eq!(begin_disk_scan(&mut st), ok("Disk scan started"));
    assert_eq!(
        begin_disk_scan(&mut st),
        err("A disk scan is already running")
    );
    let action = FixAction::DiskCleanup {
        target: "temp".into(),
    };
    disk_scan_done(
        &mut st,
        Ok((
            vec!["e".into()],
            vec![
                ("id".into(), action),
                ("sfc".into(), FixAction::SfcScan),
            ],
        )),
        NOW,
    );
    assert!(matches!(
        disk_target(&st, "sfc"),
        Ok(request) if matches!(request.action, FixAction::SfcScan)
    ));
    let request = disk_target(&st, "id").expect("a request");
    assert_eq!(request.diagnosis, "User-requested disk cleanup");
    assert_eq!(request.reason, "user-requested cleanup");
    assert!(!request.force_approval);
    assert!(disk_target(&st, "other").is_err());
    disk_scan_done(&mut st, Err("x".into()), NOW);
    assert!(disk_target(&st, "id").is_ok());
}

#[test]
fn startup_entries_belong_to_the_user_who_scanned() {
    let found = || {
        Ok(StartupFound {
            owner_sid: "S-1".into(),
            entries: vec!["e".into()],
            targets: vec![(
                "id".into(),
                StartupToggle {
                    name: "OneDrive".into(),
                    location: "user_run".into(),
                    hive: "S-1".into(),
                    task_path: String::new(),
                },
            )],
        })
    };
    let mut st = SvcState::default();
    assert_eq!(
        begin_startup_scan(&mut st, None),
        err("Startup scan requires an active interactive user")
    );
    assert_eq!(
        begin_startup_scan(&mut st, Some("S-1")),
        ok("Startup scan started")
    );
    assert!(startup_scan_done(
        &mut st,
        "S-1",
        Some("s-1"),
        found(),
        NOW
    ));
    match startup_action(&mut st, "id", false, Some("S-1")) {
        Ok(request) => {
            assert!(request.force_approval);
            assert_eq!(request.diagnosis, "User disabled a startup entry");
            match request.action {
                FixAction::StartupSet { name, enable, .. } => {
                    assert_eq!((name.as_str(), enable), ("OneDrive", false));
                }
                _ => panic!("expected a switch"),
            }
        }
        Err(message) => panic!("{message}"),
    }
    assert!(startup_action(&mut st, "other", true, Some("S-1")).is_err());
    assert!(startup_action(&mut st, "id", true, Some("S-2")).is_err());
    assert!(st.startup_targets.is_empty());
    let mut st = SvcState::default();
    assert!(begin_startup_scan(&mut st, Some("S-1")).is_ok());
    assert!(!startup_scan_done(
        &mut st,
        "S-1",
        Some("S-2"),
        found(),
        NOW
    ));
    assert!(st.startup_targets.is_empty());
}

#[test]
fn lists_are_cleared_and_shown() {
    let mut st = SvcState::default();
    let sure = Metric {
        bits: 1f32.to_bits(),
    };
    push_problem(&mut st, "d1", sure, "a1", false, true, None, 1);
    push_problem(&mut st, "d2", sure, "a2", false, true, None, 2);
    push_execution(&mut st, "e1", false, "", None, 1);
    assert_eq!(recent_problem_lines(&st), ["d2 (a2)", "d1 (a1)"]);
    assert_eq!(recent_execution_lines(&st), ["e1: failed"]);
    assert_eq!(clear_problems(&mut st), ok("Problems cleared"));
    assert_eq!(clear_executions(&mut st), ok("Activity cleared"));
    assert!(st.recent_problems.is_empty() && st.recent_executions.is_empty());
    assert_eq!(
        learned_fact_changed(&mut st, Ok(vec![])),
        ok("Learned fact updated")
    );
    assert_eq!(undo_claimed(Ok(true)), ok("Registry undo started"));
    assert_eq!(
        undo_claimed(Ok(false)),
        err("Undo is missing or already claimed")
    );
    assert_eq!(
        undo_claimed(Err("x".into())),
        err("Undo could not start: x")
    );
    settle_startup(&mut st, true, Ok(0), None, NOW);
    assert_eq!(st.status, "Active");
    settle_startup(&mut st, true, Err("x".into()), None, NOW);
    assert_eq!(
        st.error.as_deref(),
        Some("Interrupted approvals could not be recovered: x")
    );
}

#[test]
fn settings_of_applications_and_of_the_advisor_are_taken() {
    let mut st = SvcState::default();
    st.updater.apps = vec![row("a", "current"), row("b", "current")];
    let set = |st: &mut SvcState, changed: Result<bool, String>, saved: Result<(), String>| {
        app_setting_saved(
            st,
            "A",
            true,
            " hold ",
            changed,
            saved,
            vec!["n".into()],
            "s".into(),
        )
    };
    assert_eq!(set(&mut st, Err("too long".into()), Ok(())), err("too long"));
    assert_eq!(
        set(&mut st, Ok(true), Err("ro".into())),
        err("App setting could not be saved: ro")
    );
    assert!(!st.updater.apps[0].ignored);
    assert_eq!(set(&mut st, Ok(true), Ok(())), ok("App setting saved"));
    assert!(st.updater.apps[0].ignored && !st.updater.apps[1].ignored);
    assert_eq!(st.updater.apps[0].note, "hold");
    assert_eq!(
        app_setting_saved(
            &mut st,
            "a",
            false,
            " ",
            Ok(false),
            Err("never tried".into()),
            vec![],
            "s".into()
        ),
        ok("App setting saved")
    );
    assert!(!st.updater.apps[0].ignored);
    assert_eq!(st.updater.apps[0].note, "hold", "a blank note is no note");
    let note = |st: &mut SvcState, changed: Result<bool, String>, saved: Result<(), String>| {
        app_note_saved(st, "B", "later", changed, saved, vec![])
    };
    assert_eq!(note(&mut st, Err("too long".into()), Ok(())), err("too long"));
    assert_eq!(note(&mut st, Ok(false), Ok(())), ok("App note unchanged"));
    assert_eq!(
        note(&mut st, Ok(true), Err("ro".into())),
        err("App note could not be saved: ro")
    );
    assert_eq!(st.updater.apps[1].note, "");
    assert_eq!(note(&mut st, Ok(true), Ok(())), ok("App note saved"));
    assert_eq!(st.updater.apps[1].note, "later");
    let no = |e: &str| Err::<bool, String>(e.to_string());
    assert_eq!(app_setting_changed(Ok(false), None), Ok(false));
    assert_eq!(app_setting_changed(Ok(false), Some(Ok(true))), Ok(true));
    assert_eq!(app_setting_changed(no("a"), Some(Ok(true))), no("a"));
    assert_eq!(app_setting_changed(no("a"), Some(no("b"))), no("b"));
    assert_eq!(
        advisor_settings_saved(
            &mut st,
            Err("ro".into()),
            true,
            AdvisorSettingsView::default()
        ),
        err("Advisor settings could not be saved: ro")
    );
    assert!(st.advisor.is_none());
    assert_eq!(
        advisor_settings_saved(&mut st, Ok(()), true, AdvisorSettingsView::default()),
        ok("Advisor settings saved")
    );
    assert!(st.advisor.as_ref().is_some_and(|a| a.enabled && !a.escalated));
    start_scheduled_update(&mut st);
    assert!(st.updater_running && st.updater.running && st.updater.enabled);
    assert_eq!(st.updater.phase, "checking…");
    begin_restart(&mut st);
    assert_eq!(st.status, "Restarting");
}
