//! What the user's commands do to the state, and what they are answered.

use crate::copied::Copied;
use crate::cycle::{later, LoopState, REACTIVE_DEBOUNCE};
use crate::metric::Amount;
use crate::models::FixAction;
use crate::proto::{
    AdvisorSettingsView, AdvisorStatus, AskEntry, LearnedFactView, ScanView, StartupToggle,
    UiSettings, UpdaterAppRow,
};
use crate::routing::{cat, said, UserRequest};
use crate::state::{
    ASK_CAP, SvcState, add_capped, apply_set_gaming, capped_numbers_are_the_nearest, capped_sum,
    clear_stale_startup_cache, gaming_at, is_gaming_at, lease_after, ref_view, refresh_ask,
    same_user, settle, settled, startup_owner_matches, unique_ids,
};
use crate::text::{
    decimal, decimal_text, eq_ignore_ascii_case, has_prefix, is_listed, lemma_views_push, listed,
    opt_view, same, same_ignoring_ascii_case, trim, trimmed, unicode_lowercase, views,
};
use vstd::prelude::*;
use vstd::string::*;

verus! {

/// How long the tray's word that a game runs holds, in seconds.
pub const GAMING_LEASE_SECS: i64 = 90;

// ── Pausing, clearing, refreshing ─────────────────────────────────────────────

/// Whether a state is another with monitoring paused or resumed, and settled.
pub open spec fn pause_toggled(before: SvcState, after: SvcState, now: i64) -> bool {
    &&& after == (SvcState { paused: !before.paused, status: after.status, ..before })
    &&& after.status@ == settled(after, now)
}

/// Pause or resume.
pub fn toggle_pause(st: &mut SvcState, now: i64) -> (r: Result<String, String>)
    ensures
        pause_toggled(*old(st), *final(st), now),
        said(
            r,
            true,
            if final(st).paused {
                "Monitoring paused"@
            } else {
                "Monitoring resumed"@
            },
        ),
{
    st.paused = !st.paused;
    settle(st, now);
    if st.paused {
        Ok("Monitoring paused".to_owned())
    } else {
        Ok("Monitoring resumed".to_owned())
    }
}

/// Pausing and resuming leaves everything as it was, with the status that it comes to rest
/// on.
pub proof fn pausing_twice_changes_nothing(a: SvcState, b: SvcState, c: SvcState, now: i64)
    requires
        pause_toggled(a, b, now),
        pause_toggled(b, c, now),
    ensures
        c == (SvcState { status: c.status, ..a }),
        c.status@ == settled(a, now),
{
}

/// Forget the problems that are shown.
pub fn clear_problems(st: &mut SvcState) -> (r: Result<String, String>)
    ensures
        *final(st) == (SvcState { recent_problems: final(st).recent_problems, ..*old(st) }),
        final(st).recent_problems@.len() == 0,
        said(r, true, "Problems cleared"@),
{
    st.recent_problems = Vec::new();
    Ok("Problems cleared".to_owned())
}

/// Forget the executions that are shown.
pub fn clear_executions(st: &mut SvcState) -> (r: Result<String, String>)
    ensures
        *final(st) == (SvcState { recent_executions: final(st).recent_executions, ..*old(st) }),
        final(st).recent_executions@.len() == 0,
        said(r, true, "Activity cleared"@),
{
    st.recent_executions = Vec::new();
    Ok("Activity cleared".to_owned())
}

/// Take a fresh look at the services. A live error is not settled away.
pub fn refresh_status(st: &mut SvcState, failed_services: Vec<String>, now: i64) -> (r: Result<
    String,
    String,
>)
    ensures
        *final(st) == (SvcState { failed_services, status: final(st).status, ..*old(st) }),
        final(st).status@ == (if old(st).status@ == "Error"@ {
            old(st).status@
        } else {
            settled(*final(st), now)
        }),
        said(r, true, "Status refreshed"@),
{
    st.failed_services = failed_services;
    if !same(st.status.as_str(), "Error") {
        settle(st, now);
    }
    Ok("Status refreshed".to_owned())
}

// ── Game mode ─────────────────────────────────────────────────────────────────

/// What is to be done to the power plan.
#[derive(Debug, Clone, Copy, PartialEq, Eq, Structural)]
pub enum PowerEdge {
    Nothing,
    /// A game started.
    Boost,
    /// The game ended.
    Restore,
}

/// Take a message about a game. The power plan follows whether a game is taken to run, not
/// the message itself; at the end of a game everything is looked at anew, soon.
pub fn set_gaming(
    st: &mut SvcState,
    lp: &mut LoopState,
    on: bool,
    manual: bool,
    now_secs: i64,
    now: u64,
) -> (r: (PowerEdge, Result<String, String>))
    ensures
        *final(st) == (SvcState {
            gaming_manual: if manual {
                on
            } else {
                old(st).gaming_manual
            },
            gaming_until: lease_after(*old(st), on, manual, now_secs, GAMING_LEASE_SECS),
            status: final(st).status,
            ..*old(st)
        }),
        final(st).status@ == settled(*final(st), now_secs),
        ({
            let was = gaming_at(*old(st), now_secs);
            let runs = gaming_at(*final(st), now_secs);
            &&& said(
                r.1,
                true,
                if runs {
                    "Game Mode enabled"@
                } else {
                    "Game Mode disabled"@
                },
            )
            &&& r.0 == (if !was && runs {
                PowerEdge::Boost
            } else if was && !runs {
                PowerEdge::Restore
            } else {
                PowerEdge::Nothing
            })
            &&& if !was && runs {
                *final(lp) == (LoopState { was_gaming: true, ..*old(lp) })
            } else if was && !runs {
                *final(lp) == (LoopState {
                    was_gaming: false,
                    last_fingerprint: None,
                    react_at: Some(
                        match old(lp).react_at {
                            Some(at) => at,
                            None => later(now, REACTIVE_DEBOUNCE),
                        },
                    ),
                    ..*old(lp)
                })
            } else {
                *final(lp) == *old(lp)
            }
        }),
{
    let was = is_gaming_at(st, now_secs);
    apply_set_gaming(st, on, manual, now_secs, GAMING_LEASE_SECS);
    let is_now = is_gaming_at(st, now_secs);
    let edge = if !was && is_now {
        lp.was_gaming = true;
        PowerEdge::Boost
    } else if was && !is_now {
        lp.was_gaming = false;
        lp.last_fingerprint = None;
        if lp.react_at.is_none() {
            lp.react_at = Some(now.saturating_add(REACTIVE_DEBOUNCE));
        }
        PowerEdge::Restore
    } else {
        PowerEdge::Nothing
    };
    settle(st, now_secs);
    let message = if is_now {
        "Game Mode enabled"
    } else {
        "Game Mode disabled"
    };
    (edge, Ok(message.to_owned()))
}

// ── The provider and the settings ─────────────────────────────────────────────

/// Start to try the provider out, unless that is under way or the provider's configuration is
/// not valid.
pub fn begin_provider_test(running: &mut bool, configured: Result<(), String>) -> (r: Result<
    (),
    String,
>)
    ensures
        match r {
            Ok(()) => !*old(running) && configured is Ok,
            Err(message) => if *old(running) {
                message@ == "A provider test is already running"@
            } else {
                configured is Err && message@ == "Provider configuration is invalid: "@
                    + configured->Err_0@
            },
        },
        *final(running) == (*old(running) || configured is Ok),
{
    if *running {
        return Err("A provider test is already running".to_owned());
    }
    match configured {
        Ok(()) => {
            *running = true;
            Ok(())
        },
        Err(e) => Err(cat("Provider configuration is invalid: ", e.as_str())),
    }
}

/// What the provider answered to a trial.
pub enum ProviderReply {
    Text(String),
    Failed(String),
    TimedOut,
}

/// The model as it is named in a trial's result.
pub open spec fn shown_model(model: Seq<char>) -> Seq<char> {
    if trim(model).len() == 0 {
        "provider default"@
    } else {
        model
    }
}

/// The result of a trial of the provider, which is over with it.
pub fn provider_test_result(
    running: &mut bool,
    provider: &str,
    model: &str,
    reply: ProviderReply,
) -> (r: Result<String, String>)
    ensures
        !*final(running),
        ({
            let who = provider@ + " / "@ + shown_model(model@);
            match reply {
                ProviderReply::Text(text) => if trim(text@).len() > 0 {
                    said(r, true, who + " responded successfully"@)
                } else {
                    said(r, false, who + " returned no text"@)
                },
                ProviderReply::Failed(e) => said(r, false, who + " failed: "@ + e@),
                ProviderReply::TimedOut => said(r, false, who + " timed out after 120 seconds"@),
            }
        }),
{
    *running = false;
    let body = trimmed(model);
    let mut who = cat(provider, " / ");
    if body.as_str().is_empty() {
        who.append("provider default");
    } else {
        who.append(model);
    }
    match reply {
        ProviderReply::Text(text) => {
            let answer = trimmed(text.as_str());
            if answer.as_str().is_empty() {
                who.append(" returned no text");
                Err(who)
            } else {
                who.append(" responded successfully");
                Ok(who)
            }
        },
        ProviderReply::Failed(e) => {
            who.append(" failed: ");
            who.append(e.as_str());
            Err(who)
        },
        ProviderReply::TimedOut => {
            who.append(" timed out after 120 seconds");
            Err(who)
        },
    }
}

/// Settings that were refused.
pub fn settings_rejected(st: &mut SvcState, e: &str) -> (r: Result<String, String>)
    ensures
        *final(st) == (SvcState { error: final(st).error, ..*old(st) }),
        opt_view(final(st).error) == Some("Settings not applied — "@ + e@),
        said(r, false, "Settings not applied: "@ + e@),
{
    st.error = Some(cat("Settings not applied — ", e));
    Err(cat("Settings not applied: ", e))
}

/// Settings that could not be saved.
pub fn settings_unsaved(st: &mut SvcState, e: &str) -> (r: Result<String, String>)
    ensures
        *final(st) == (SvcState { error: final(st).error, ..*old(st) }),
        opt_view(final(st).error) == Some("Save settings: "@ + e@),
        said(r, false, "Settings could not be saved: "@ + e@),
{
    st.error = Some(cat("Save settings: ", e));
    Err(cat("Settings could not be saved: ", e))
}

/// Whether an error says that the provider was not configured.
pub open spec fn provider_error(error: Option<Seq<char>>) -> bool {
    error is Some && "AI provider not configured"@.is_prefix_of(error->0)
}

/// Settings that were saved. They make up for a provider that was not configured.
pub fn settings_saved(
    st: &mut SvcState,
    settings: UiSettings,
    needs_restart: bool,
    portable_mode: bool,
    now: i64,
) -> (r: Result<String, String>)
    ensures
        *final(st) == (SvcState {
            settings: Some(settings),
            error: if provider_error(opt_view(old(st).error)) {
                None
            } else {
                old(st).error
            },
            status: final(st).status,
            ..*old(st)
        }),
        final(st).status@ == settled(*final(st), now),
        said(
            r,
            true,
            if needs_restart && portable_mode {
                "Settings saved; restart portable Eir to apply collector changes"@
            } else if needs_restart {
                "Settings saved; restarting service"@
            } else {
                "Settings saved and applied"@
            },
        ),
{
    st.settings = Some(settings);
    let resolved = match &st.error {
        Some(e) => has_prefix(e.as_str(), "AI provider not configured"),
        None => false,
    };
    if resolved {
        st.error = None;
    }
    settle(st, now);
    if needs_restart && portable_mode {
        Ok("Settings saved; restart portable Eir to apply collector changes".to_owned())
    } else if needs_restart {
        Ok("Settings saved; restarting service".to_owned())
    } else {
        Ok("Settings saved and applied".to_owned())
    }
}

/// The service is about to restart.
pub fn begin_restart(st: &mut SvcState)
    ensures
        *final(st) == (SvcState { status: final(st).status, ..*old(st) }),
        final(st).status@ == "Restarting"@,
{
    st.status = "Restarting".to_owned();
}

/// The service could not be made to restart, and stays.
pub fn restart_failed(st: &mut SvcState, now: i64) -> (r: Result<String, String>)
    ensures
        *final(st) == (SvcState {
            status: final(st).status,
            error: final(st).error,
            ..*old(st)
        }),
        final(st).status@ == settled(*final(st), now),
        opt_view(final(st).error) == Some(
            "Settings saved, but the restart helper failed to launch — restart EirSvc manually."@,
        ),
        said(r, false, "Settings saved, but EirSvc could not restart automatically"@),
{
    settle(st, now);
    st.error = Some(
        "Settings saved, but the restart helper failed to launch — restart EirSvc manually.".to_owned(),
    );
    Err("Settings saved, but EirSvc could not restart automatically".to_owned())
}

// ── Updates ───────────────────────────────────────────────────────────────────

/// Whether an update check is under way and shows so.
pub open spec fn check_started(before: SvcState, phase: Seq<char>, after: SvcState) -> bool {
    &&& after == (SvcState { updater_running: true, updater: after.updater, ..before })
    &&& after.updater == (crate::proto::UpdaterStatus {
        running: true,
        phase: after.updater.phase,
        ..before.updater
    })
    &&& after.updater.phase@ == phase
}

fn start_check(st: &mut SvcState, phase: String)
    ensures
        check_started(*old(st), phase@, *final(st)),
{
    st.updater_running = true;
    st.updater.running = true;
    st.updater.phase = phase;
}

/// Start an update check that the user asks for, even while a game runs.
pub fn run_updates_now(st: &mut SvcState) -> (r: Result<String, String>)
    ensures
        if old(st).paused {
            said(r, false, "Resume monitoring before running updates"@) && *final(st) == *old(st)
        } else if old(st).updater_running {
            said(r, false, "An update check is already running"@) && *final(st) == *old(st)
        } else {
            said(r, true, "Update check started"@) && check_started(
                *old(st),
                "checking…"@,
                *final(st),
            )
        },
{
    if st.paused {
        Err("Resume monitoring before running updates".to_owned())
    } else if st.updater_running {
        Err("An update check is already running".to_owned())
    } else {
        start_check(st, "checking…".to_owned());
        Ok("Update check started".to_owned())
    }
}

/// Start an update check that is due.
pub fn start_scheduled_update(st: &mut SvcState)
    ensures
        check_started(
            (SvcState {
                updater: crate::proto::UpdaterStatus { enabled: true, ..old(st).updater },
                ..*old(st)
            }),
            "checking…"@,
            *final(st),
        ),
{
    st.updater.enabled = true;
    start_check(st, "checking…".to_owned());
}

/// Whether an application is the failed one of an identity.
pub open spec fn failed_app(app: UpdaterAppRow, id: Seq<char>) -> bool {
    same_ignoring_ascii_case(app.id@, id) && app.state@ == "failed"@
}

/// The application of an identity whose update failed, if there is one. The identity has to
/// be a valid one.
pub fn failed_update_for_retry(apps: &Vec<UpdaterAppRow>, id: &str, valid: bool) -> (r: Option<
    UpdaterAppRow,
>)
    ensures
        match r {
            Some(row) => valid && exists|i: int|
                0 <= i < apps@.len() && failed_app(#[trigger] apps@[i], id@) && apps@[i].same_as(
                    &row,
                ) && forall|k: int| 0 <= k < i ==> !failed_app(#[trigger] apps@[k], id@),
            None => !valid || forall|i: int|
                0 <= i < apps@.len() ==> !failed_app(#[trigger] apps@[i], id@),
        },
{
    if !valid {
        return None;
    }
    let mut i: usize = 0;
    while i < apps.len()
        invariant
            i <= apps@.len(),
            valid,
            forall|k: int| 0 <= k < i ==> !failed_app(#[trigger] apps@[k], id@),
        decreases apps@.len() - i,
    {
        if eq_ignore_ascii_case(apps[i].id.as_str(), id) && same(apps[i].state.as_str(), "failed") {
            let row = apps[i].copied();
            assert(failed_app(apps@[i as int], id@) && apps@[i as int].same_as(&row));
            return Some(row);
        }
        i += 1;
    }
    None
}

/// The identity that a request names.
pub open spec fn app_key(id: Seq<char>) -> Seq<char> {
    unicode_lowercase(trim(id))
}

/// The identity that a request names: without the white space around it, in lower case.
pub fn app_key_of(id: &str) -> (r: String)
    ensures
        r@ == app_key(id@),
{
    let text = trimmed(id);
    text.to_lowercase()
}

/// The application to try again, or why none is.
pub fn find_retry(st: &SvcState, key: &str, valid: bool) -> (r: Result<UpdaterAppRow, String>)
    ensures
        if st.paused {
            r is Err && r->Err_0@ == "Resume monitoring before retrying updates"@
        } else if st.updater_running {
            r is Err && r->Err_0@ == "An update check is already running"@
        } else {
            match r {
                Ok(row) => valid && exists|i: int|
                    0 <= i < st.updater.apps@.len() && failed_app(
                        #[trigger] st.updater.apps@[i],
                        key@,
                    ) && st.updater.apps@[i].same_as(&row) && forall|k: int|
                        0 <= k < i ==> !failed_app(#[trigger] st.updater.apps@[k], key@),
                Err(message) => message@ == "Only a currently failed app can be retried"@ && (
                !valid || forall|i: int|
                    0 <= i < st.updater.apps@.len() ==> !failed_app(
                        #[trigger] st.updater.apps@[i],
                        key@,
                    )),
            }
        },
{
    if st.paused {
        return Err("Resume monitoring before retrying updates".to_owned());
    }
    if st.updater_running {
        return Err("An update check is already running".to_owned());
    }
    match failed_update_for_retry(&st.updater.apps, key, valid) {
        Some(row) => Ok(row),
        None => Err("Only a currently failed app can be retried".to_owned()),
    }
}

/// Start to try an application again.
pub fn start_retry(st: &mut SvcState, name: &str, guided: bool) -> (r: Result<String, String>)
    ensures
        check_started(*old(st), "re-checking "@ + name@ + "…"@, *final(st)),
        said(
            r,
            true,
            if guided {
                "Re-checking "@ + name@ + " with saved guidance"@
            } else {
                "Re-checking "@ + name@
            },
        ),
{
    let mut phase = cat("re-checking ", name);
    phase.append("…");
    start_check(st, phase);
    let mut message = cat("Re-checking ", name);
    if guided {
        message.append(" with saved guidance");
    }
    Ok(message)
}

/// Show how far an update check is. A message that comes after its end is passed over;
/// whether it was not.
pub fn update_progress(st: &mut SvcState, phase: String) -> (r: bool)
    ensures
        r == old(st).updater_running,
        !r ==> *final(st) == *old(st),
        r ==> *final(st) == (SvcState {
            updater: crate::proto::UpdaterStatus { phase, ..old(st).updater },
            ..*old(st)
        }),
{
    if !st.updater_running {
        return false;
    }
    st.updater.phase = phase;
    true
}

/// Whether the history of updates may be cleared now.
pub fn may_clear_history(st: &SvcState) -> (r: Result<(), String>)
    ensures
        match r {
            Ok(()) => !st.updater_running,
            Err(message) => st.updater_running && message@
                == "Wait for the current update check to finish"@,
        },
{
    if st.updater_running {
        Err("Wait for the current update check to finish".to_owned())
    } else {
        Ok(())
    }
}

/// Whether a state is another without the history of updates.
pub open spec fn history_forgotten(
    before: SvcState,
    learned_facts: Vec<LearnedFactView>,
    after: SvcState,
) -> bool {
    &&& after == (SvcState { updater: after.updater, learned_facts, ..before })
    &&& after.updater == (crate::proto::UpdaterStatus {
        apps: after.updater.apps,
        notes: after.updater.notes,
        recent: after.updater.recent,
        last_cost_usd: Amount { bits: 0 },
        ..before.updater
    })
    &&& after.updater.apps@.len() == 0
    &&& after.updater.notes@.len() == 0
    &&& after.updater.recent@.len() == 0
}

/// Forget the history of updates, where it was cleared.
pub fn history_cleared(
    st: &mut SvcState,
    cleared: Result<(), String>,
    facts_cleared: Result<(), String>,
    learned_facts: Vec<LearnedFactView>,
) -> (r: Result<String, String>)
    ensures
        match cleared {
            Err(e) => {
                &&& *final(st) == *old(st)
                &&& said(r, false, "Update history could not be cleared: "@ + e@)
            },
            Ok(()) => {
                &&& history_forgotten(*old(st), learned_facts, *final(st))
                &&& match facts_cleared {
                    Ok(()) => said(r, true, "Update history cleared"@),
                    Err(e) => said(
                        r,
                        false,
                        "History cleared, but learned update facts remain: "@ + e@,
                    ),
                }
            },
        },
{
    if let Err(e) = cleared {
        return Err(cat("Update history could not be cleared: ", e.as_str()));
    }
    st.updater.apps = Vec::new();
    st.updater.notes = Vec::new();
    st.updater.recent = Vec::new();
    st.updater.last_cost_usd = Amount { bits: 0 };
    st.learned_facts = learned_facts;
    match facts_cleared {
        Ok(()) => Ok("Update history cleared".to_owned()),
        Err(e) => Err(cat("History cleared, but learned update facts remain: ", e.as_str())),
    }
}

/// When the next update check is, by when the last was.
pub open spec fn next_check(enabled: bool, last_run: i64, interval: i64, now: i64) -> i64 {
    if !enabled {
        0
    } else if last_run > 0 {
        capped_sum(last_run, interval)
    } else {
        capped_sum(now, interval)
    }
}

/// Take the updater's new settings, where they were saved.
pub fn updater_settings_saved(
    st: &mut SvcState,
    saved: Result<(), String>,
    enabled: bool,
    settings: String,
    interval_secs: i64,
    now: i64,
) -> (r: Result<String, String>)
    ensures
        match saved {
            Err(e) => {
                &&& *final(st) == *old(st)
                &&& said(r, false, "Updater settings could not be saved: "@ + e@)
            },
            Ok(()) => {
                &&& *final(st) == (SvcState {
                    updater: crate::proto::UpdaterStatus {
                        enabled,
                        settings,
                        next_run: next_check(
                            enabled,
                            old(st).updater.last_run,
                            interval_secs,
                            now,
                        ),
                        ..old(st).updater
                    },
                    ..*old(st)
                })
                &&& said(r, true, "Updater settings saved"@)
            },
        },
{
    if let Err(e) = saved {
        return Err(cat("Updater settings could not be saved: ", e.as_str()));
    }
    st.updater.enabled = enabled;
    st.updater.settings = settings;
    st.updater.next_run = if !enabled {
        0
    } else if st.updater.last_run > 0 {
        add_capped(st.updater.last_run, interval_secs)
    } else {
        add_capped(now, interval_secs)
    };
    Ok("Updater settings saved".to_owned())
}

/// Whether an application of an identity is listed.
pub open spec fn listed_app(apps: Seq<UpdaterAppRow>, key: Seq<char>) -> bool {
    exists|i: int| 0 <= i < apps.len() && same_ignoring_ascii_case((#[trigger] apps[i]).id@, key)
}

/// Whether a text is listed, in any ASCII case.
pub open spec fn listed_in_any_case(list: Seq<String>, key: Seq<char>) -> bool {
    exists|i: int| 0 <= i < list.len() && same_ignoring_ascii_case((#[trigger] list[i])@, key)
}

/// Whether an application is known: it is listed, or among others by name.
pub fn app_is_known(apps: &Vec<UpdaterAppRow>, others: &Vec<String>, key: &str) -> (r: bool)
    ensures
        r == (listed_app(apps@, key@) || listed_in_any_case(others@, key@)),
{
    let mut i: usize = 0;
    while i < apps.len()
        invariant
            i <= apps@.len(),
            forall|k: int|
                0 <= k < i ==> !same_ignoring_ascii_case((#[trigger] apps@[k]).id@, key@),
        decreases apps@.len() - i,
    {
        if eq_ignore_ascii_case(apps[i].id.as_str(), key) {
            return true;
        }
        i += 1;
    }
    let mut j: usize = 0;
    while j < others.len()
        invariant
            j <= others@.len(),
            !listed_app(apps@, key@),
            forall|k: int|
                0 <= k < j ==> !same_ignoring_ascii_case((#[trigger] others@[k])@, key@),
        decreases others@.len() - j,
    {
        if eq_ignore_ascii_case(others[j].as_str(), key) {
            return true;
        }
        j += 1;
    }
    false
}

/// Whether an application's setting may be changed: it has a name and is known.
pub fn may_set_app(st: &SvcState, ignored: &Vec<String>, key: &str) -> (r: Result<(), String>)
    ensures
        ({
            let known = listed_app(st.updater.apps@, key@) || listed_in_any_case(ignored@, key@);
            match r {
                Ok(()) => key@.len() > 0 && known,
                Err(message) => message@ == "Unknown app"@ && (key@.len() == 0 || !known),
            }
        }),
{
    if key.is_empty() || !app_is_known(&st.updater.apps, ignored, key) {
        Err("Unknown app".to_owned())
    } else {
        Ok(())
    }
}

/// Whether an application's note may be changed: it is listed, or has a note already.
pub fn may_note_app(st: &SvcState, noted: &Vec<String>, key: &str) -> (r: Result<(), String>)
    ensures
        ({
            let known = listed_app(st.updater.apps@, key@) || listed(noted@, key@);
            match r {
                Ok(()) => known,
                Err(message) => message@ == "Unknown app"@ && !known,
            }
        }),
{
    let none: Vec<String> = Vec::new();
    assert(!listed_in_any_case(none@, key@));
    if app_is_known(&st.updater.apps, &none, key) || is_listed(noted, key) {
        Ok(())
    } else {
        Err("Unknown app".to_owned())
    }
}

/// Whether a row shows a setting: the ones of the identity do, the others are as they were.
pub open spec fn row_set(
    before: UpdaterAppRow,
    key: Seq<char>,
    ignore: Option<bool>,
    note: Option<Seq<char>>,
    after: UpdaterAppRow,
) -> bool {
    if same_ignoring_ascii_case(before.id@, key) {
        &&& after == (UpdaterAppRow { ignored: after.ignored, note: after.note, ..before })
        &&& after.ignored == (match ignore {
            Some(flag) => flag,
            None => before.ignored,
        })
        &&& after.note@ == (match note {
            Some(text) => text,
            None => before.note@,
        })
    } else {
        after == before
    }
}

/// Whether the rows show a setting.
pub open spec fn rows_set(
    before: Seq<UpdaterAppRow>,
    key: Seq<char>,
    ignore: Option<bool>,
    note: Option<Seq<char>>,
    after: Seq<UpdaterAppRow>,
) -> bool {
    after.len() == before.len() && forall|i: int|
        0 <= i < before.len() ==> row_set(#[trigger] before[i], key, ignore, note, after[i])
}

fn set_rows(apps: &mut Vec<UpdaterAppRow>, key: &str, ignore: Option<bool>, note: Option<&str>)
    ensures
        rows_set(old(apps)@, key@, ignore, ref_view(note), final(apps)@),
{
    let ghost all = apps@;
    let mut i: usize = 0;
    while i < apps.len()
        invariant
            i <= apps@.len(),
            apps@.len() == all.len(),
            forall|k: int|
                0 <= k < i ==> row_set(#[trigger] all[k], key@, ignore, ref_view(note), apps@[k]),
            forall|k: int| i <= k < all.len() ==> apps@[k] == #[trigger] all[k],
        decreases apps@.len() - i,
    {
        assert(apps@[i as int] == all[i as int]);
        if eq_ignore_ascii_case(apps[i].id.as_str(), key) {
            if let Some(flag) = ignore {
                apps[i].ignored = flag;
            }
            if let Some(text) = note {
                apps[i].note = text.to_owned();
            }
        }
        assert(row_set(all[i as int], key@, ignore, ref_view(note), apps@[i as int]));
        i += 1;
    }
}

/// The note that an application is given along with another setting: a blank one leaves the
/// note as it is.
pub open spec fn given_note(note: Seq<char>) -> Option<Seq<char>> {
    if trim(note).len() > 0 {
        Some(trim(note))
    } else {
        None
    }
}

/// Whether an application's setting has to be saved, from what came of changing whether it is
/// passed over and, where a note was given, of changing that. What is refused is not saved;
/// where both are, the note's refusal is told.
pub fn app_setting_changed(
    ignored: Result<bool, String>,
    noted: Option<Result<bool, String>>,
) -> (r: Result<bool, String>)
    ensures
        match noted {
            Some(Err(e)) => r == Err::<bool, String>(e),
            Some(Ok(note_changed)) => match ignored {
                Ok(changed) => r == Ok::<bool, String>(changed || note_changed),
                Err(e) => r == Err::<bool, String>(e),
            },
            None => r == ignored,
        },
{
    match noted {
        Some(Err(e)) => Err(e),
        Some(Ok(note_changed)) => match ignored {
            Ok(changed) => Ok(changed || note_changed),
            Err(e) => Err(e),
        },
        None => ignored,
    }
}

/// Whether a state is another that shows whether an application is passed over, and its note
/// where one was given.
pub open spec fn app_setting_shown(
    before: SvcState,
    key: Seq<char>,
    ignore: bool,
    note: Seq<char>,
    app_notes: Vec<String>,
    settings: String,
    after: SvcState,
) -> bool {
    &&& after == (SvcState { updater: after.updater, ..before })
    &&& after.updater == (crate::proto::UpdaterStatus {
        apps: after.updater.apps,
        app_notes,
        settings,
        ..before.updater
    })
    &&& rows_set(before.updater.apps@, key, Some(ignore), given_note(note), after.updater.apps@)
}

/// Show that an application is passed over or no longer is, and its note where one was given,
/// unless that was refused or could not be saved. What did not change is not saved, and shown
/// all the same.
pub fn app_setting_saved(
    st: &mut SvcState,
    key: &str,
    ignore: bool,
    note: &str,
    changed: Result<bool, String>,
    saved: Result<(), String>,
    app_notes: Vec<String>,
    settings: String,
) -> (r: Result<String, String>)
    ensures
        match changed {
            Err(e) => *final(st) == *old(st) && said(r, false, e@),
            Ok(needed) => if needed && saved is Err {
                &&& *final(st) == *old(st)
                &&& said(r, false, "App setting could not be saved: "@ + saved->Err_0@)
            } else {
                &&& app_setting_shown(
                    *old(st),
                    key@,
                    ignore,
                    note@,
                    app_notes,
                    settings,
                    *final(st),
                )
                &&& said(r, true, "App setting saved"@)
            },
        },
{
    let needed = match changed {
        Ok(needed) => needed,
        Err(e) => return Err(e),
    };
    if needed {
        if let Err(e) = saved {
            return Err(cat("App setting could not be saved: ", e.as_str()));
        }
    }
    let text = trimmed(note);
    if text.as_str().is_empty() {
        set_rows(&mut st.updater.apps, key, Some(ignore), None);
    } else {
        set_rows(&mut st.updater.apps, key, Some(ignore), Some(text.as_str()));
    }
    st.updater.app_notes = app_notes;
    st.updater.settings = settings;
    Ok("App setting saved".to_owned())
}

/// Whether a state is another that shows an application's note.
pub open spec fn app_note_shown(
    before: SvcState,
    key: Seq<char>,
    note: Seq<char>,
    app_notes: Vec<String>,
    after: SvcState,
) -> bool {
    &&& after == (SvcState { updater: after.updater, ..before })
    &&& after.updater == (crate::proto::UpdaterStatus {
        apps: after.updater.apps,
        app_notes,
        ..before.updater
    })
    &&& rows_set(before.updater.apps@, key, None, Some(note), after.updater.apps@)
}

/// Show an application's note, unless it was refused, did not change or could not be saved.
pub fn app_note_saved(
    st: &mut SvcState,
    key: &str,
    note: &str,
    changed: Result<bool, String>,
    saved: Result<(), String>,
    app_notes: Vec<String>,
) -> (r: Result<String, String>)
    ensures
        match changed {
            Err(e) => *final(st) == *old(st) && said(r, false, e@),
            Ok(false) => *final(st) == *old(st) && said(r, true, "App note unchanged"@),
            Ok(true) => match saved {
                Err(e) => {
                    &&& *final(st) == *old(st)
                    &&& said(r, false, "App note could not be saved: "@ + e@)
                },
                Ok(()) => {
                    &&& app_note_shown(*old(st), key@, note@, app_notes, *final(st))
                    &&& said(r, true, "App note saved"@)
                },
            },
        },
{
    match changed {
        Err(e) => return Err(e),
        Ok(changed) => {
            if !changed {
                return Ok("App note unchanged".to_owned());
            }
        },
    }
    if let Err(e) = saved {
        return Err(cat("App note could not be saved: ", e.as_str()));
    }
    set_rows(&mut st.updater.apps, key, None, Some(note));
    st.updater.app_notes = app_notes;
    Ok("App note saved".to_owned())
}

/// What an update check that finished says.
pub struct CycleSummary {
    /// One application was tried again, not all of them.
    pub targeted: bool,
    pub completed_at: i64,
    /// When the check found all well, or 0.
    pub clean_at: i64,
    pub notes: Vec<String>,
    pub cost_usd: Amount,
}

/// The position of the first application of an identity.
pub open spec fn app_at(apps: Seq<UpdaterAppRow>, id: Seq<char>) -> Option<int>
    decreases apps.len(),
{
    if apps.len() == 0 {
        None
    } else if app_at(apps.drop_last(), id) is Some {
        app_at(apps.drop_last(), id)
    } else if same_ignoring_ascii_case(apps.last().id@, id) {
        Some(apps.len() - 1)
    } else {
        None
    }
}

/// The applications with one of them replaced, or added where it is new.
pub open spec fn app_replaced(apps: Seq<UpdaterAppRow>, row: UpdaterAppRow) -> Seq<UpdaterAppRow> {
    match app_at(apps, row.id@) {
        Some(i) => apps.update(i, row),
        None => apps.push(row),
    }
}

/// The applications with some of them replaced, one after the other.
pub open spec fn apps_replaced(apps: Seq<UpdaterAppRow>, rows: Seq<UpdaterAppRow>) -> Seq<
    UpdaterAppRow,
>
    decreases rows.len(),
{
    if rows.len() == 0 {
        apps
    } else {
        app_replaced(apps_replaced(apps, rows.drop_last()), rows.last())
    }
}

proof fn lemma_app_at(apps: Seq<UpdaterAppRow>, id: Seq<char>)
    ensures
        match app_at(apps, id) {
            Some(i) => 0 <= i < apps.len() && same_ignoring_ascii_case(apps[i].id@, id)
                && forall|k: int|
                0 <= k < i ==> !same_ignoring_ascii_case((#[trigger] apps[k]).id@, id),
            None => forall|k: int|
                0 <= k < apps.len() ==> !same_ignoring_ascii_case((#[trigger] apps[k]).id@, id),
        },
    decreases apps.len(),
{
    if apps.len() > 0 {
        lemma_app_at(apps.drop_last(), id);
        let before = apps.drop_last();
        assert forall|k: int| 0 <= k < before.len() implies apps[k] == #[trigger] before[k] by {
        }
        match app_at(before, id) {
            Some(i) => {
                assert forall|k: int| 0 <= k < i implies !same_ignoring_ascii_case(
                    (#[trigger] apps[k]).id@,
                    id,
                ) by {
                    assert(before[k] == apps[k]);
                }
            },
            None => {
                assert forall|k: int| 0 <= k < before.len() implies !same_ignoring_ascii_case(
                    (#[trigger] apps[k]).id@,
                    id,
                ) by {
                    assert(before[k] == apps[k]);
                }
            },
        }
    }
}

fn replace_app(apps: &mut Vec<UpdaterAppRow>, row: UpdaterAppRow)
    ensures
        final(apps)@ == app_replaced(old(apps)@, row),
{
    proof {
        lemma_app_at(apps@, row.id@);
    }
    let mut i: usize = 0;
    while i < apps.len()
        invariant
            i <= apps@.len(),
            apps@ == old(apps)@,
            match app_at(apps@, row.id@) {
                Some(i) => 0 <= i < apps@.len() && same_ignoring_ascii_case(
                    apps@[i].id@,
                    row.id@,
                ) && forall|k: int|
                    0 <= k < i ==> !same_ignoring_ascii_case((#[trigger] apps@[k]).id@, row.id@),
                None => forall|k: int|
                    0 <= k < apps@.len() ==> !same_ignoring_ascii_case(
                        (#[trigger] apps@[k]).id@,
                        row.id@,
                    ),
            },
            forall|k: int|
                0 <= k < i ==> !same_ignoring_ascii_case((#[trigger] apps@[k]).id@, row.id@),
        decreases apps@.len() - i,
    {
        if eq_ignore_ascii_case(apps[i].id.as_str(), row.id.as_str()) {
            assert(app_at(apps@, row.id@) == Some(i as int));
            apps[i] = row;
            return ;
        }
        i += 1;
    }
    apps.push(row);
}

/// Fold in an update check that finished. One that tried a single application leaves the
/// others, and the time of the last full check, as they are. What is shown is to be kept
/// under the time that comes back, where that is above 0.
pub fn fold_update(
    st: &mut SvcState,
    summary: CycleSummary,
    rows: Vec<UpdaterAppRow>,
) -> (r: i64)
    ensures
        *final(st) == (SvcState {
            updater_running: false,
            updater: final(st).updater,
            ..*old(st)
        }),
        final(st).updater == (crate::proto::UpdaterStatus {
            running: false,
            last_run: if summary.targeted {
                old(st).updater.last_run
            } else {
                summary.completed_at
            },
            last_clean_run: if !summary.targeted && summary.clean_at > 0 {
                summary.clean_at
            } else {
                old(st).updater.last_clean_run
            },
            notes: summary.notes,
            apps: final(st).updater.apps,
            ..old(st).updater
        }),
        final(st).updater.apps@ == (if summary.targeted {
            apps_replaced(old(st).updater.apps@, rows@)
        } else {
            rows@
        }),
        r == final(st).updater.last_run,
{
    st.updater_running = false;
    st.updater.running = false;
    if summary.targeted {
        let ghost all = rows@;
        let ghost start = st.updater.apps@;
        let mut apps: Vec<UpdaterAppRow> = Vec::new();
        std::mem::swap(&mut apps, &mut st.updater.apps);
        assert(all.take(0) =~= Seq::<UpdaterAppRow>::empty());
        for row in it: rows
            invariant
                it.seq() == all,
                apps@ == apps_replaced(start, all.take(it.index() as int)),
        {
            let ghost next = all.take(it.index() as int + 1);
            assert(next.drop_last() =~= all.take(it.index() as int));
            assert(next.last() == row);
            replace_app(&mut apps, row);
        }
        assert(all.take(all.len() as int) =~= all);
        st.updater.apps = apps;
        st.updater.notes = summary.notes;
    } else {
        st.updater.last_run = summary.completed_at;
        if summary.clean_at > 0 {
            st.updater.last_clean_run = summary.clean_at;
        }
        st.updater.notes = summary.notes;
        st.updater.apps = rows;
    }
    st.updater.last_run
}

/// The end of an update check: how keeping its result went, what it cost, and when the next
/// one is.
pub fn finish_update(
    st: &mut SvcState,
    kept: Result<(), String>,
    cost_usd: Amount,
    recent: Option<Vec<String>>,
    enabled: bool,
    interval_secs: i64,
)
    ensures
        *final(st) == (SvcState { updater: final(st).updater, ..*old(st) }),
        final(st).updater == (crate::proto::UpdaterStatus {
            notes: final(st).updater.notes,
            last_cost_usd: cost_usd,
            phase: final(st).updater.phase,
            recent: match recent {
                Some(list) => list,
                None => old(st).updater.recent,
            },
            next_run: if enabled {
                capped_sum(old(st).updater.last_run, interval_secs)
            } else {
                0
            },
            ..old(st).updater
        }),
        final(st).updater.phase@ == "idle"@,
        match kept {
            Ok(()) => final(st).updater.notes == old(st).updater.notes,
            Err(e) => views(final(st).updater.notes@) == views(old(st).updater.notes@).push(
                "failed to persist update completion: "@ + e@,
            ),
        },
{
    if let Err(e) = kept {
        let note = cat("failed to persist update completion: ", e.as_str());
        proof {
            lemma_views_push(st.updater.notes@, note);
        }
        st.updater.notes.push(note);
    }
    st.updater.last_cost_usd = cost_usd;
    st.updater.phase = "idle".to_owned();
    if let Some(list) = recent {
        st.updater.recent = list;
    }
    st.updater.next_run = if enabled {
        add_capped(st.updater.last_run, interval_secs)
    } else {
        0
    };
}

/// When the last full update check was, by what was kept: its own time where that was, else
/// the latest of the attempts and the last clean check.
pub fn seed_last_run(persisted: i64, recent: i64, last_clean: i64) -> (r: i64)
    ensures
        r == (if persisted > 0 {
            persisted
        } else if recent > last_clean {
            recent
        } else {
            last_clean
        }),
{
    if persisted > 0 {
        persisted
    } else if recent > last_clean {
        recent
    } else {
        last_clean
    }
}

/// What is noted of an update check of which nothing is left.
pub const INCOMPLETE_CHECK: &'static str =
    "The last update check was incomplete; run it again for fresh evidence.";

/// Whether nothing is left of the last update check: there was one, it was not clean, and it
/// was not restored.
pub open spec fn check_is_lost(st: SvcState, restored: bool) -> bool {
    !restored && st.updater.last_run > 0 && st.updater.last_clean_run != st.updater.last_run
}

/// Note an update check of which nothing is left, with the row that shows it; whether there
/// was one.
pub fn note_incomplete(st: &mut SvcState, restored: bool, row: UpdaterAppRow) -> (r: bool)
    ensures
        r == check_is_lost(*old(st), restored),
        !r ==> *final(st) == *old(st),
        r ==> {
            &&& *final(st) == (SvcState { updater: final(st).updater, ..*old(st) })
            &&& final(st).updater == (crate::proto::UpdaterStatus {
                notes: final(st).updater.notes,
                apps: final(st).updater.apps,
                ..old(st).updater
            })
            &&& views(final(st).updater.notes@) == seq![INCOMPLETE_CHECK@]
            &&& final(st).updater.apps@ == seq![row]
        },
{
    if restored || st.updater.last_run <= 0 || st.updater.last_clean_run == st.updater.last_run {
        return false;
    }
    let mut notes: Vec<String> = Vec::new();
    notes.push(INCOMPLETE_CHECK.to_owned());
    assert(views(notes@) =~= seq![INCOMPLETE_CHECK@]);
    let mut apps: Vec<UpdaterAppRow> = Vec::new();
    apps.push(row);
    assert(apps@ =~= seq![row]);
    st.updater.notes = notes;
    st.updater.apps = apps;
    true
}

// ── The advisor's settings ────────────────────────────────────────────────────

/// Whether a state is another with the advisor's new settings; what it did today stays.
pub open spec fn advisor_set(
    before: SvcState,
    enabled: bool,
    settings: AdvisorSettingsView,
    after: SvcState,
) -> bool {
    &&& after == (SvcState { advisor: after.advisor, ..before })
    &&& after.advisor is Some
    &&& match before.advisor {
        Some(a) => after.advisor->0 == (AdvisorStatus { enabled, settings, ..a }),
        None => {
            let a = after.advisor->0;
            &&& a == (AdvisorStatus { enabled, settings, ..a })
            &&& !a.escalated
            &&& a.escalation_model@.len() == 0
            &&& a.reason@.len() == 0
            &&& a.spent_today_usd == (Amount { bits: 0 })
        },
    }
}

/// Take the advisor's new settings, where they were saved.
pub fn advisor_settings_saved(
    st: &mut SvcState,
    saved: Result<(), String>,
    enabled: bool,
    settings: AdvisorSettingsView,
) -> (r: Result<String, String>)
    ensures
        match saved {
            Err(e) => {
                &&& *final(st) == *old(st)
                &&& said(r, false, "Advisor settings could not be saved: "@ + e@)
            },
            Ok(()) => {
                &&& advisor_set(*old(st), enabled, settings, *final(st))
                &&& said(r, true, "Advisor settings saved"@)
            },
        },
{
    if let Err(e) = saved {
        return Err(cat("Advisor settings could not be saved: ", e.as_str()));
    }
    let mut before: Option<AdvisorStatus> = None;
    std::mem::swap(&mut before, &mut st.advisor);
    st.advisor = Some(
        match before {
            Some(a) => AdvisorStatus {
                enabled,
                escalated: a.escalated,
                escalation_model: a.escalation_model,
                reason: a.reason,
                spent_today_usd: a.spent_today_usd,
                settings,
            },
            None => AdvisorStatus {
                enabled,
                escalated: false,
                escalation_model: String::new(),
                reason: String::new(),
                spent_today_usd: Amount { bits: 0 },
                settings,
            },
        },
    );
    Ok("Advisor settings saved".to_owned())
}

// ── Questions ─────────────────────────────────────────────────────────────────

/// Whether what is shown of the questions is rebuilt with an error.
pub open spec fn ask_shown(before: SvcState, error: Option<Seq<char>>, after: SvcState) -> bool {
    &&& after.ask is Some
    &&& after.ask->0.running == after.ask_running
    &&& opt_view(after.ask->0.error) == error
    &&& after.ask_entries.same_as(&after.ask->0.entries)
}

/// Refuse a question, for a reason.
pub fn reject_ask(st: &mut SvcState, reason: &str) -> (r: Result<String, String>)
    ensures
        *final(st) == (SvcState { ask: final(st).ask, ..*old(st) }),
        ask_shown(*old(st), Some(reason@), *final(st)),
        said(r, false, reason@),
{
    refresh_ask(st, Some(reason.to_owned()));
    Err(reason.to_owned())
}

/// Start to answer a question.
pub fn begin_ask(st: &mut SvcState) -> (r: Result<String, String>)
    ensures
        *final(st) == (SvcState { ask_running: true, ask: final(st).ask, ..*old(st) }),
        ask_shown(*old(st), None, *final(st)),
        said(r, true, "Question accepted"@),
{
    st.ask_running = true;
    refresh_ask(st, None);
    Ok("Question accepted".to_owned())
}

/// The questions with one more at the front, for which the last makes room at the cap.
pub open spec fn asked(entries: Seq<AskEntry>, entry: AskEntry) -> Seq<AskEntry> {
    if entries.len() >= ASK_CAP {
        seq![entry] + entries.drop_last()
    } else {
        seq![entry] + entries
    }
}

/// Take an answer, or the failure to give one. A refusal of another question that came
/// meanwhile stays in sight.
pub fn ask_done(st: &mut SvcState, answer: Result<AskEntry, String>, now: i64)
    requires
        old(st).wf(),
    ensures
        final(st).wf(),
        *final(st) == (SvcState {
            ask_running: false,
            last_ask_at: now,
            ask_entries: final(st).ask_entries,
            ask: final(st).ask,
            ..*old(st)
        }),
        match answer {
            Ok(entry) => {
                &&& final(st).ask_entries@ == asked(old(st).ask_entries@, entry)
                &&& ask_shown(
                    *old(st),
                    match old(st).ask {
                        Some(a) => opt_view(a.error),
                        None => None,
                    },
                    *final(st),
                )
            },
            Err(e) => {
                &&& final(st).ask_entries == old(st).ask_entries
                &&& ask_shown(*old(st), Some("Couldn't answer that: "@ + e@), *final(st))
            },
        },
{
    st.ask_running = false;
    st.last_ask_at = now;
    match answer {
        Ok(entry) => {
            let ghost before = st.ask_entries@;
            if st.ask_entries.len() >= ASK_CAP {
                let _ = st.ask_entries.pop();
            }
            st.ask_entries.insert(0, entry);
            assert(st.ask_entries@ =~= asked(before, entry));
            let carry = match &st.ask {
                Some(a) => match &a.error {
                    Some(e) => Some(e.clone()),
                    None => None,
                },
                None => None,
            };
            refresh_ask(st, carry);
        },
        Err(e) => {
            let text = cat("Couldn't answer that: ", e.as_str());
            refresh_ask(st, Some(text));
        },
    }
}

/// Forget the questions, and when the last was answered, unless that is refused now, for a
/// reason that the user is told.
pub fn clear_ask(st: &mut SvcState, refusal: Option<&str>) -> (r: Result<String, String>)
    requires
        old(st).wf(),
    ensures
        final(st).wf(),
        match refusal {
            Some(reason) => said(r, false, reason@) && *final(st) == *old(st),
            None => {
                &&& *final(st) == (SvcState {
                    ask_entries: final(st).ask_entries,
                    last_ask_at: 0,
                    ask: final(st).ask,
                    ..*old(st)
                })
                &&& final(st).ask_entries@.len() == 0
                &&& ask_shown(*old(st), None, *final(st))
                &&& said(r, true, "Ask history cleared"@)
            },
        },
{
    match refusal {
        Some(reason) => Err(reason.to_owned()),
        None => {
            st.ask_entries = Vec::new();
            st.last_ask_at = 0;
            refresh_ask(st, None);
            Ok("Ask history cleared".to_owned())
        },
    }
}

// ── Scans ─────────────────────────────────────────────────────────────────────

/// The result of a scan while the next one runs: what was found stays in sight.
pub open spec fn rescanning(before: Option<ScanView>, after: Option<ScanView>) -> bool {
    &&& after is Some
    &&& after->0.running
    &&& after->0.error is None
    &&& match before {
        Some(v) => after->0.scanned_at == v.scanned_at && after->0.entries == v.entries,
        None => after->0.scanned_at == 0 && after->0.entries@.len() == 0,
    }
}

fn mark_rescanning(view: &mut Option<ScanView>)
    ensures
        rescanning(*old(view), *final(view)),
{
    let mut before: Option<ScanView> = None;
    std::mem::swap(&mut before, view);
    *view = Some(
        match before {
            Some(v) => ScanView {
                running: true,
                scanned_at: v.scanned_at,
                error: None,
                entries: v.entries,
            },
            None => ScanView { running: true, scanned_at: 0, error: None, entries: Vec::new() },
        },
    );
}

/// The result of a scan that is over: what it found, or what was found before and why it
/// failed.
pub open spec fn scanned(
    before: Option<ScanView>,
    found: Result<Vec<String>, String>,
    now: i64,
    after: Option<ScanView>,
) -> bool {
    &&& after is Some
    &&& !after->0.running
    &&& match found {
        Ok(entries) => after->0.scanned_at == now && after->0.error is None && after->0.entries
            == entries,
        Err(e) => {
            &&& after->0.error == Some(e)
            &&& match before {
                Some(v) => after->0.scanned_at == v.scanned_at && after->0.entries == v.entries,
                None => after->0.scanned_at == 0 && after->0.entries@.len() == 0,
            }
        },
    }
}

fn mark_scanned(view: &mut Option<ScanView>, found: Result<Vec<String>, String>, now: i64)
    ensures
        scanned(*old(view), found, now, *final(view)),
{
    match found {
        Ok(entries) => {
            *view = Some(ScanView { running: false, scanned_at: now, error: None, entries });
        },
        Err(e) => {
            let mut before: Option<ScanView> = None;
            std::mem::swap(&mut before, view);
            *view = Some(
                match before {
                    Some(v) => ScanView {
                        running: false,
                        scanned_at: v.scanned_at,
                        error: Some(e),
                        entries: v.entries,
                    },
                    None => ScanView {
                        running: false,
                        scanned_at: 0,
                        error: Some(e),
                        entries: Vec::new(),
                    },
                },
            );
        },
    }
}

/// Start a scan of the disk.
pub fn begin_disk_scan(st: &mut SvcState) -> (r: Result<String, String>)
    ensures
        if old(st).paused {
            said(r, false, "Resume monitoring before scanning"@) && *final(st) == *old(st)
        } else if old(st).disk_scan_running {
            said(r, false, "A disk scan is already running"@) && *final(st) == *old(st)
        } else {
            &&& said(r, true, "Disk scan started"@)
            &&& *final(st) == (SvcState {
                disk_scan_running: true,
                disk_insights: final(st).disk_insights,
                ..*old(st)
            })
            &&& rescanning(old(st).disk_insights, final(st).disk_insights)
        },
{
    if st.paused {
        Err("Resume monitoring before scanning".to_owned())
    } else if st.disk_scan_running {
        Err("A disk scan is already running".to_owned())
    } else {
        st.disk_scan_running = true;
        mark_rescanning(&mut st.disk_insights);
        Ok("Disk scan started".to_owned())
    }
}

/// Take the result of a scan of the disk: its entries, and the action behind each.
pub fn disk_scan_done(
    st: &mut SvcState,
    found: Result<(Vec<String>, Vec<(String, FixAction)>), String>,
    now: i64,
)
    requires
        old(st).wf(),
        found matches Ok((_, targets)) ==> unique_ids(targets@),
    ensures
        final(st).wf(),
        *final(st) == (SvcState {
            disk_scan_running: false,
            disk_insights: final(st).disk_insights,
            disk_targets: match found {
                Ok((_, targets)) => targets,
                Err(_) => old(st).disk_targets,
            },
            ..*old(st)
        }),
        scanned(
            old(st).disk_insights,
            match found {
                Ok((entries, _)) => Ok(entries),
                Err(e) => Err(e),
            },
            now,
            final(st).disk_insights,
        ),
{
    st.disk_scan_running = false;
    match found {
        Ok((entries, targets)) => {
            st.disk_targets = targets;
            mark_scanned(&mut st.disk_insights, Ok(entries), now);
        },
        Err(e) => {
            mark_scanned(&mut st.disk_insights, Err(e), now);
        },
    }
}

/// The first pair with a name.
pub open spec fn pair_at<A>(pairs: Seq<(String, A)>, name: Seq<char>) -> Option<A>
    decreases pairs.len(),
{
    if pairs.len() == 0 {
        None
    } else if pairs[0].0@ == name {
        Some(pairs[0].1)
    } else {
        pair_at(pairs.skip(1), name)
    }
}

/// Each entry of a scan stands for the target that it was found with, and for no other.
pub proof fn entry_stands_for_its_own_target<A>(pairs: Seq<(String, A)>, i: int)
    requires
        unique_ids(pairs),
        0 <= i < pairs.len(),
    ensures
        pair_at(pairs, pairs[i].0@) == Some(pairs[i].1),
    decreases pairs.len(),
{
    if i > 0 {
        assert(pairs[0].0@ != pairs[i].0@);
        let rest = pairs.skip(1);
        assert forall|a: int, b: int| 0 <= a < b < rest.len() implies (#[trigger] rest[a]).0@ != (
        #[trigger] rest[b]).0@ by {
            assert(pairs[a + 1].0@ != pairs[b + 1].0@);
        }
        entry_stands_for_its_own_target(rest, i - 1);
    }
}

/// The action behind an entry of the last scan of the disk. What the user sends names the
/// entry alone, so that no action comes from outside.
pub fn disk_target(st: &SvcState, id: &str) -> (r: Result<UserRequest, String>)
    ensures
        match r {
            Ok(request) => pair_at(st.disk_targets@, id@) == Some(request.action)
                && request.diagnosis@ == "User-requested disk cleanup"@ && request.reason@
                == "user-requested cleanup"@ && !request.force_approval,
            Err(message) => pair_at(st.disk_targets@, id@) is None && message@
                == "Disk entry is stale; scan again"@,
        },
{
    let mut i: usize = 0;
    assert(st.disk_targets@.skip(0) =~= st.disk_targets@);
    while i < st.disk_targets.len()
        invariant
            i <= st.disk_targets@.len(),
            pair_at(st.disk_targets@, id@) == pair_at(st.disk_targets@.skip(i as int), id@),
        decreases st.disk_targets@.len() - i,
    {
        assert(st.disk_targets@.skip(i as int)[0] == st.disk_targets@[i as int]);
        if same(st.disk_targets[i].0.as_str(), id) {
            return Ok(
                UserRequest {
                    action: st.disk_targets[i].1.copy(),
                    diagnosis: "User-requested disk cleanup",
                    reason: "user-requested cleanup",
                    force_approval: false,
                },
            );
        }
        assert(st.disk_targets@.skip(i as int).skip(1) =~= st.disk_targets@.skip(i + 1));
        i += 1;
    }
    Err("Disk entry is stale; scan again".to_owned())
}

/// The state once the startup entries of another user are forgotten.
pub open spec fn cache_checked(before: SvcState, active: Option<Seq<char>>, after: SvcState) -> bool {
    if before.startup_owner_sid is Some && !same_user(opt_view(before.startup_owner_sid), active) {
        &&& after == (SvcState {
            startup: None,
            startup_owner_sid: None,
            startup_scan_running: false,
            startup_targets: after.startup_targets,
            ..before
        })
        &&& after.startup_targets@.len() == 0
    } else {
        after == before
    }
}

/// Start a scan of the startup entries of the active user. Those of another user are
/// forgotten in any case.
pub fn begin_startup_scan(st: &mut SvcState, active_sid: Option<&str>) -> (r: Result<String, String>)
    ensures
        old(st).wf() ==> final(st).wf(),
        exists|mid: SvcState| #[trigger]
            cache_checked(*old(st), ref_view(active_sid), mid) && (if mid.paused {
                said(r, false, "Resume monitoring before scanning"@) && *final(st) == mid
            } else if active_sid is None {
                said(r, false, "Startup scan requires an active interactive user"@) && *final(st)
                    == mid
            } else if mid.startup_scan_running {
                said(r, false, "A startup scan is already running"@) && *final(st) == mid
            } else {
                &&& said(r, true, "Startup scan started"@)
                &&& *final(st) == (SvcState {
                    startup_owner_sid: final(st).startup_owner_sid,
                    startup_scan_running: true,
                    startup: final(st).startup,
                    ..mid
                })
                &&& opt_view(final(st).startup_owner_sid) == ref_view(active_sid)
                &&& rescanning(mid.startup, final(st).startup)
            }),
{
    let _ = clear_stale_startup_cache(st, active_sid);
    let ghost mid = *st;
    assert(cache_checked(*old(st), ref_view(active_sid), mid));
    if st.paused {
        return Err("Resume monitoring before scanning".to_owned());
    }
    match active_sid {
        None => Err("Startup scan requires an active interactive user".to_owned()),
        Some(sid) => {
            if st.startup_scan_running {
                Err("A startup scan is already running".to_owned())
            } else {
                st.startup_owner_sid = Some(sid.to_owned());
                st.startup_scan_running = true;
                mark_rescanning(&mut st.startup);
                Ok("Startup scan started".to_owned())
            }
        },
    }
}

/// What a scan of the startup entries found: whose they are, the entries, and what each
/// stands for.
pub struct StartupFound {
    pub owner_sid: String,
    pub entries: Vec<String>,
    pub targets: Vec<(String, StartupToggle)>,
}

/// Whether the result of a scan for a user is one to take: the user asked for it, is still
/// the active one, and the entries are that user's.
pub open spec fn acceptable_scan(
    st: SvcState,
    scan_sid: Seq<char>,
    active: Option<Seq<char>>,
    found: Result<StartupFound, String>,
) -> bool {
    &&& same_user(opt_view(st.startup_owner_sid), Some(scan_sid))
    &&& same_user(Some(scan_sid), active)
    &&& found is Ok ==> same_ignoring_ascii_case(found->Ok_0.owner_sid@, scan_sid)
}

/// Take the result of a scan of the startup entries for a user; whether it was taken. A
/// result for a user who is not the active one never replaces nor reveals another's, and
/// what is kept of a user who is no longer active is forgotten.
pub fn startup_scan_done(
    st: &mut SvcState,
    scan_sid: &str,
    active_sid: Option<&str>,
    found: Result<StartupFound, String>,
    now: i64,
) -> (r: bool)
    requires
        old(st).wf(),
        found matches Ok(f) ==> unique_ids(f.targets@),
    ensures
        final(st).wf(),
        r == acceptable_scan(*old(st), scan_sid@, ref_view(active_sid), found),
        r ==> {
            &&& *final(st) == (SvcState {
                startup_scan_running: false,
                startup: final(st).startup,
                startup_targets: match found {
                    Ok(f) => f.targets,
                    Err(_) => old(st).startup_targets,
                },
                ..*old(st)
            })
            &&& scanned(
                old(st).startup,
                match found {
                    Ok(f) => Ok(f.entries),
                    Err(e) => Err(e),
                },
                now,
                final(st).startup,
            )
        },
        !r ==> if !same_user(opt_view(old(st).startup_owner_sid), Some(scan_sid@)) {
            *final(st) == *old(st)
        } else if !same_user(Some(scan_sid@), ref_view(active_sid)) {
            cache_checked(*old(st), ref_view(active_sid), *final(st))
        } else {
            cache_checked(*old(st), None, *final(st))
        },
{
    let owner = match &st.startup_owner_sid {
        Some(sid) => Some(sid.as_str()),
        None => None,
    };
    let asked_for = startup_owner_matches(owner, Some(scan_sid));
    if !asked_for {
        return false;
    }
    if !startup_owner_matches(Some(scan_sid), active_sid) {
        let _ = clear_stale_startup_cache(st, active_sid);
        return false;
    }
    match found {
        Ok(f) => {
            if !eq_ignore_ascii_case(f.owner_sid.as_str(), scan_sid) {
                let _ = clear_stale_startup_cache(st, None);
                return false;
            }
            st.startup_scan_running = false;
            st.startup_targets = f.targets;
            mark_scanned(&mut st.startup, Ok(f.entries), now);
        },
        Err(e) => {
            st.startup_scan_running = false;
            mark_scanned(&mut st.startup, Err(e), now);
        },
    }
    true
}

/// Whether an action switches a startup entry: a scheduled task by its path, any other
/// entry by its name.
pub open spec fn switches(action: FixAction, t: StartupToggle, enable: bool) -> bool {
    match action {
        FixAction::StartupSet { name, location, hive, enable: on } => {
            &&& name == (if t.location@ == "scheduled_task"@ {
                t.task_path
            } else {
                t.name
            })
            &&& location == t.location
            &&& hive == t.hive
            &&& on == enable
        },
        _ => false,
    }
}

/// The action that switches an entry of the last startup scan, where the entries are the
/// active user's. Those of another user are forgotten.
pub fn startup_action(
    st: &mut SvcState,
    id: &str,
    enable: bool,
    active_sid: Option<&str>,
) -> (r: Result<UserRequest, String>)
    ensures
        old(st).wf() ==> final(st).wf(),
        ({
            let current = same_user(opt_view(old(st).startup_owner_sid), ref_view(active_sid));
            let target = pair_at(old(st).startup_targets@, id@);
            &&& if current {
                *final(st) == *old(st)
            } else {
                cache_checked(*old(st), ref_view(active_sid), *final(st))
            }
            &&& match r {
                Ok(request) => {
                    &&& current && target is Some
                    &&& switches(request.action, target->0, enable)
                    &&& request.diagnosis@ == (if enable {
                        "User re-enabled a startup entry"@
                    } else {
                        "User disabled a startup entry"@
                    })
                    &&& request.reason@ == "user startup change"@
                    &&& request.force_approval
                },
                Err(message) => (!current || target is None) && message@
                    == "Startup entry is stale; scan again"@,
            }
        }),
{
    let owner = match &st.startup_owner_sid {
        Some(sid) => Some(sid.as_str()),
        None => None,
    };
    let current = startup_owner_matches(owner, active_sid);
    if !current {
        let _ = clear_stale_startup_cache(st, active_sid);
        return Err("Startup entry is stale; scan again".to_owned());
    }
    let mut i: usize = 0;
    assert(st.startup_targets@.skip(0) =~= st.startup_targets@);
    while i < st.startup_targets.len()
        invariant
            i <= st.startup_targets@.len(),
            *st == *old(st),
            current == same_user(opt_view(old(st).startup_owner_sid), ref_view(active_sid)),
            current,
            pair_at(st.startup_targets@, id@) == pair_at(
                st.startup_targets@.skip(i as int),
                id@,
            ),
        decreases st.startup_targets@.len() - i,
    {
        assert(st.startup_targets@.skip(i as int)[0] == st.startup_targets@[i as int]);
        if same(st.startup_targets[i].0.as_str(), id) {
            let t = &st.startup_targets[i].1;
            let name = if same(t.location.as_str(), "scheduled_task") {
                t.task_path.clone()
            } else {
                t.name.clone()
            };
            return Ok(
                UserRequest {
                    action: FixAction::StartupSet {
                        name,
                        location: t.location.clone(),
                        hive: t.hive.clone(),
                        enable,
                    },
                    diagnosis: if enable {
                        "User re-enabled a startup entry"
                    } else {
                        "User disabled a startup entry"
                    },
                    reason: "user startup change",
                    force_approval: true,
                },
            );
        }
        assert(st.startup_targets@.skip(i as int).skip(1) =~= st.startup_targets@.skip(i + 1));
        i += 1;
    }
    Err("Startup entry is stale; scan again".to_owned())
}

// ── Starting up ───────────────────────────────────────────────────────────────

/// Start without a provider: the service stays, and says what is wrong.
pub fn provider_missing(st: &mut SvcState, e: &str)
    ensures
        *final(st) == (SvcState {
            status: final(st).status,
            error: final(st).error,
            ..*old(st)
        }),
        final(st).status@ == "Error"@,
        opt_view(final(st).error) == Some(
            "AI provider not configured: "@ + e@ + " — fix it in Settings"@,
        ),
        provider_error(opt_view(final(st).error)),
{
    st.status = "Error".to_owned();
    let mut text = cat("AI provider not configured: ", e);
    text.append(" — fix it in Settings");
    proof {
        reveal_strlit("AI provider not configured");
        reveal_strlit("AI provider not configured: ");
        assert("AI provider not configured"@ =~= text@.take(
            "AI provider not configured"@.len() as int,
        ));
    }
    st.error = Some(text);
}

/// Settle once everything has started. Without a provider the error that says so stays.
pub fn settle_startup(
    st: &mut SvcState,
    has_provider: bool,
    recovered: Result<usize, String>,
    pending: Option<Vec<crate::proto::PendingApproval>>,
    now: i64,
)
    ensures
        *final(st) == (SvcState {
            status: final(st).status,
            error: final(st).error,
            pending: match pending {
                Some(list) => list,
                None => old(st).pending,
            },
            ..*old(st)
        }),
        match recovered {
            Err(e) => final(st).status@ == "Error"@ && opt_view(final(st).error) == Some(
                "Interrupted approvals could not be recovered: "@ + e@,
            ),
            Ok(_) => if has_provider {
                final(st).error is None && final(st).status@ == settled(*final(st), now)
            } else {
                final(st).error == old(st).error && final(st).status == old(st).status
            },
        },
{
    if has_provider {
        st.status = "Active".to_owned();
        st.error = None;
    }
    if let Err(e) = recovered {
        st.status = "Error".to_owned();
        st.error = Some(cat("Interrupted approvals could not be recovered: ", e.as_str()));
    }
    if let Some(list) = pending {
        st.pending = list;
    }
    if has_provider && st.error.is_none() {
        settle(st, now);
    }
}

/// There is no action behind an entry that the last scan did not list.
pub proof fn unknown_entries_have_no_action(st: SvcState, id: Seq<char>)
    requires
        forall|i: int| 0 <= i < st.disk_targets@.len() ==> (#[trigger] st.disk_targets@[i]).0@ != id,
        forall|i: int|
            0 <= i < st.startup_targets@.len() ==> (#[trigger] st.startup_targets@[i]).0@ != id,
    ensures
        pair_at(st.disk_targets@, id) is None,
        pair_at(st.startup_targets@, id) is None,
{
    lemma_no_pair(st.disk_targets@, id);
    lemma_no_pair(st.startup_targets@, id);
}

proof fn lemma_no_pair<A>(pairs: Seq<(String, A)>, name: Seq<char>)
    requires
        forall|i: int| 0 <= i < pairs.len() ==> (#[trigger] pairs[i]).0@ != name,
    ensures
        pair_at(pairs, name) is None,
    decreases pairs.len(),
{
    if pairs.len() > 0 {
        assert(pairs[0].0@ != name);
        assert forall|i: int| 0 <= i < pairs.skip(1).len() implies (#[trigger] pairs.skip(1)[i]).0@
            != name by {
            assert(pairs[i + 1].0@ != name);
        }
        lemma_no_pair(pairs.skip(1), name);
    }
}

/// The result of a scan for a user who is no longer the active one is never taken.
pub proof fn switched_users_scan_is_not_taken(
    st: SvcState,
    scan_sid: Seq<char>,
    active: Option<Seq<char>>,
    found: Result<StartupFound, String>,
)
    requires
        !same_user(Some(scan_sid), active),
    ensures
        !acceptable_scan(st, scan_sid, active, found),
{
}

// ── Update checks that did not finish ─────────────────────────────────────────

/// The summary of an update check that never finished.
pub fn unfinished_cycle(timed_out: bool, limit_mins: u64, targeted: bool, now: i64) -> (r:
    CycleSummary)
    ensures
        r.targeted == targeted,
        r.completed_at == now,
        r.clean_at == 0,
        r.cost_usd == (Amount { bits: 0 }),
        views(r.notes@) == seq![
            if timed_out {
                "update cycle exceeded "@ + decimal(limit_mins as nat) + "m and was stopped"@
            } else {
                "update cycle aborted unexpectedly"@
            },
        ],
{
    let note = if timed_out {
        let minutes = decimal_text(limit_mins);
        let mut text = cat("update cycle exceeded ", minutes.as_str());
        text.append("m and was stopped");
        text
    } else {
        "update cycle aborted unexpectedly".to_owned()
    };
    let mut notes: Vec<String> = Vec::new();
    notes.push(note);
    assert(views(notes@) =~= seq![note@]);
    CycleSummary {
        targeted,
        completed_at: now,
        clean_at: 0,
        notes,
        cost_usd: Amount { bits: 0 },
    }
}

/// What became of the guidance that an update check learned.
pub enum GuidanceEnd {
    Saved,
    Unsaved(String),
    Invalid(String),
}

/// Note in an update check's summary that its guidance was not learned, where it was not.
pub fn note_guidance(summary: &mut CycleSummary, end: GuidanceEnd)
    ensures
        *final(summary) == (CycleSummary { notes: final(summary).notes, ..*old(summary) }),
        match end {
            GuidanceEnd::Saved => final(summary).notes == old(summary).notes,
            GuidanceEnd::Unsaved(e) => views(final(summary).notes@) == views(
                old(summary).notes@,
            ).push("The update succeeded, but its guidance could not be learned: "@ + e@),
            GuidanceEnd::Invalid(e) => views(final(summary).notes@) == views(
                old(summary).notes@,
            ).push("The update succeeded, but its guidance was invalid: "@ + e@),
        },
{
    let note = match end {
        GuidanceEnd::Saved => return ,
        GuidanceEnd::Unsaved(e) => cat(
            "The update succeeded, but its guidance could not be learned: ",
            e.as_str(),
        ),
        GuidanceEnd::Invalid(e) => cat(
            "The update succeeded, but its guidance was invalid: ",
            e.as_str(),
        ),
    };
    proof {
        lemma_views_push(summary.notes@, note);
    }
    summary.notes.push(note);
}

/// Show the last update check again, where what was kept of it is of the last full one.
/// Whether an application is passed over, and its note, are those of now.
pub fn restore_cycle(
    st: &mut SvcState,
    at: i64,
    notes: Vec<String>,
    apps: Vec<UpdaterAppRow>,
    ignored: &Vec<String>,
    app_notes: &Vec<(String, String)>,
) -> (r: bool)
    ensures
        r == (at == old(st).updater.last_run),
        !r ==> *final(st) == *old(st),
        r ==> {
            &&& *final(st) == (SvcState { updater: final(st).updater, ..*old(st) })
            &&& final(st).updater == (crate::proto::UpdaterStatus {
                notes,
                apps: final(st).updater.apps,
                ..old(st).updater
            })
            &&& final(st).updater.apps@.len() == apps@.len()
            &&& forall|i: int|
                0 <= i < apps@.len() ==> restored_row(
                    #[trigger] apps@[i],
                    ignored@,
                    app_notes@,
                    final(st).updater.apps@[i],
                )
        },
{
    if at != st.updater.last_run {
        return false;
    }
    let mut rows = apps;
    let ghost all = rows@;
    let mut i: usize = 0;
    while i < rows.len()
        invariant
            i <= rows@.len(),
            rows@.len() == all.len(),
            forall|k: int|
                0 <= k < i ==> restored_row(#[trigger] all[k], ignored@, app_notes@, rows@[k]),
            forall|k: int| i <= k < all.len() ==> rows@[k] == #[trigger] all[k],
        decreases rows@.len() - i,
    {
        assert(rows@[i as int] == all[i as int]);
        let none: Vec<UpdaterAppRow> = Vec::new();
        let skip = app_is_known(&none, ignored, rows[i].id.as_str());
        assert(!listed_app(none@, rows@[i as int].id@));
        let note = note_of(app_notes, rows[i].id.as_str());
        rows[i].ignored = skip;
        rows[i].note = note;
        assert(restored_row(all[i as int], ignored@, app_notes@, rows@[i as int]));
        i += 1;
    }
    st.updater.notes = notes;
    st.updater.apps = rows;
    true
}

/// The note on an application, or nothing.
pub open spec fn note_on(notes: Seq<(String, String)>, id: Seq<char>) -> Seq<char> {
    match pair_at(notes, id) {
        Some(note) => note@,
        None => Seq::empty(),
    }
}

/// Whether a row is shown again.
pub open spec fn restored_row(
    before: UpdaterAppRow,
    ignored: Seq<String>,
    notes: Seq<(String, String)>,
    after: UpdaterAppRow,
) -> bool {
    &&& after == (UpdaterAppRow { ignored: after.ignored, note: after.note, ..before })
    &&& after.ignored == listed_in_any_case(ignored, before.id@)
    &&& after.note@ == note_on(notes, before.id@)
}

fn note_of(notes: &Vec<(String, String)>, id: &str) -> (r: String)
    ensures
        r@ == note_on(notes@, id@),
{
    let mut i: usize = 0;
    assert(notes@.skip(0) =~= notes@);
    while i < notes.len()
        invariant
            i <= notes@.len(),
            pair_at(notes@, id@) == pair_at(notes@.skip(i as int), id@),
        decreases notes@.len() - i,
    {
        assert(notes@.skip(i as int)[0] == notes@[i as int]);
        if same(notes[i].0.as_str(), id) {
            return notes[i].1.clone();
        }
        assert(notes@.skip(i as int).skip(1) =~= notes@.skip(i + 1));
        i += 1;
    }
    String::new()
}

// ── Attachments and answers ───────────────────────────────────────────────────

/// A file that came with a question.
pub struct Attachment {
    pub name: String,
    pub kind: String,
    pub content: String,
    pub media_type: String,
}

/// An image for the model.
pub struct ImageInput {
    pub base64: String,
    pub media_type: String,
}

/// Whether an attachment goes to the model as an image.
pub open spec fn is_image(a: Attachment) -> bool {
    a.kind@ == "image"@ && a.content@.len() > 0
}

/// The images among some attachments, as the model takes them.
pub open spec fn images_of(list: Seq<Attachment>) -> Seq<(Seq<char>, Seq<char>)>
    decreases list.len(),
{
    if list.len() == 0 {
        Seq::empty()
    } else {
        let before = images_of(list.drop_last());
        let a = list.last();
        if is_image(a) {
            before.push(
                (
                    a.content@,
                    if a.media_type@.len() == 0 {
                        "image/jpeg"@
                    } else {
                        a.media_type@
                    },
                ),
            )
        } else {
            before
        }
    }
}

/// The texts among some attachments: name and content.
pub open spec fn texts_of(list: Seq<Attachment>) -> Seq<(Seq<char>, Seq<char>)>
    decreases list.len(),
{
    if list.len() == 0 {
        Seq::empty()
    } else {
        let before = texts_of(list.drop_last());
        let a = list.last();
        if a.kind@ == "text"@ {
            before.push((a.name@, a.content@))
        } else {
            before
        }
    }
}

/// What came with a question, sorted.
pub struct SortedAttachments {
    pub labels: Vec<String>,
    pub images: Vec<ImageInput>,
    pub texts: Vec<(String, String)>,
}

/// Sort what came with a question: images for the model, texts for the prompt, and the name
/// of each for the history.
pub fn sort_attachments(list: &Vec<Attachment>) -> (r: SortedAttachments)
    ensures
        views(r.labels@) == list@.map_values(|a: Attachment| a.name@),
        r.images@.map_values(|i: ImageInput| (i.base64@, i.media_type@)) == images_of(list@),
        r.texts@.map_values(|t: (String, String)| (t.0@, t.1@)) == texts_of(list@),
{
    let mut labels: Vec<String> = Vec::new();
    let mut images: Vec<ImageInput> = Vec::new();
    let mut texts: Vec<(String, String)> = Vec::new();
    let ghost name = |a: Attachment| a.name@;
    let ghost image = |i: ImageInput| (i.base64@, i.media_type@);
    let ghost text = |t: (String, String)| (t.0@, t.1@);
    let mut i: usize = 0;
    assert(list@.take(0) =~= Seq::<Attachment>::empty());
    assert(views(labels@) =~= list@.take(0).map_values(name));
    assert(images@.map_values(image) =~= images_of(list@.take(0)));
    assert(texts@.map_values(text) =~= texts_of(list@.take(0)));
    while i < list.len()
        invariant
            i <= list@.len(),
            name == (|a: Attachment| a.name@),
            image == (|i: ImageInput| (i.base64@, i.media_type@)),
            text == (|t: (String, String)| (t.0@, t.1@)),
            views(labels@) == list@.take(i as int).map_values(name),
            images@.map_values(image) == images_of(list@.take(i as int)),
            texts@.map_values(text) == texts_of(list@.take(i as int)),
        decreases list@.len() - i,
    {
        let ghost next = list@.take(i + 1);
        assert(next.drop_last() =~= list@.take(i as int));
        assert(next.last() == list@[i as int]);
        let a = &list[i];
        let label = a.name.clone();
        proof {
            lemma_views_push(labels@, label);
        }
        labels.push(label);
        assert(views(labels@) =~= next.map_values(name));
        proof {
            reveal_strlit("image");
            reveal_strlit("text");
            assert("image"@.len() == 5 && "text"@.len() == 4);
        }
        if same(a.kind.as_str(), "image") && !a.content.as_str().is_empty() {
            let media_type = if a.media_type.as_str().is_empty() {
                "image/jpeg".to_owned()
            } else {
                a.media_type.clone()
            };
            let item = ImageInput { base64: a.content.clone(), media_type };
            let ghost before = images@;
            images.push(item);
            assert(images@.map_values(image) =~= before.map_values(image).push(
                (item.base64@, item.media_type@),
            ));
        } else if same(a.kind.as_str(), "text") {
            let item = (a.name.clone(), a.content.clone());
            let ghost before = texts@;
            texts.push(item);
            assert(texts@.map_values(text) =~= before.map_values(text).push((item.0@, item.1@)));
        }
        i += 1;
    }
    assert(list@.take(list@.len() as int) =~= list@);
    SortedAttachments { labels, images, texts }
}

/// How answering a question ended.
pub enum AnswerEnd {
    Text(String),
    Failed(String),
    Panicked,
    TimedOut,
}

/// The text of an answer: what the model said, without the white space around it; where
/// images could not be shown to it, a remark about that first.
pub open spec fn answer_text(said: Seq<char>, images_dropped: bool, images: nat) -> Seq<char> {
    let body = trim(said);
    if images_dropped && body.len() > 0 {
        "(Note: your AI provider can't read images, so "@ + decimal(images)
            + " attached image(s) weren't analysed.)\n\n"@ + body
    } else {
        body
    }
}

/// The answer, or why there is none.
pub fn finish_answer(end: AnswerEnd, images_dropped: bool, images: u64) -> (r: Result<
    String,
    String,
>)
    ensures
        match end {
            AnswerEnd::Text(text) => if trim(text@).len() == 0 {
                said(r, false, "the model returned an empty answer"@)
            } else {
                said(r, true, answer_text(text@, images_dropped, images as nat))
            },
            AnswerEnd::Failed(e) => said(r, false, e@),
            AnswerEnd::Panicked => said(r, false, "the answer task panicked"@),
            AnswerEnd::TimedOut => said(r, false, "answering timed out"@),
        },
{
    match end {
        AnswerEnd::Text(text) => {
            let body = trimmed(text.as_str());
            if body.as_str().is_empty() {
                return Err("the model returned an empty answer".to_owned());
            }
            if images_dropped {
                let count = decimal_text(images);
                let mut noted = cat(
                    "(Note: your AI provider can't read images, so ",
                    count.as_str(),
                );
                noted.append(" attached image(s) weren't analysed.)\n\n");
                noted.append(body.as_str());
                Ok(noted)
            } else {
                Ok(body)
            }
        },
        AnswerEnd::Failed(e) => Err(e),
        AnswerEnd::Panicked => Err("the answer task panicked".to_owned()),
        AnswerEnd::TimedOut => Err("answering timed out".to_owned()),
    }
}

/// How many items a question's prompt speaks of at most.
pub const PROMPT_ITEMS: usize = 8;

/// The lines about the last problems for a question's prompt, newest first.
pub fn recent_problem_lines(st: &SvcState) -> (r: Vec<String>)
    ensures
        ({
            let all = st.recent_problems@;
            let n = if all.len() < PROMPT_ITEMS {
                all.len() as int
            } else {
                PROMPT_ITEMS as int
            };
            views(r@) == Seq::new(
                n as nat,
                |i: int|
                    {
                        let p = all[all.len() - 1 - i];
                        p.diagnosis@ + " ("@ + p.action@ + ")"@
                    },
            )
        }),
{
    let all = &st.recent_problems;
    let len: usize = all.len();
    let n: usize = if len < PROMPT_ITEMS {
        len
    } else {
        PROMPT_ITEMS
    };
    let mut out: Vec<String> = Vec::new();
    let mut i: usize = 0;
    let ghost want = Seq::new(
        n as nat,
        |i: int|
            {
                let p = all@[all@.len() - 1 - i];
                p.diagnosis@ + " ("@ + p.action@ + ")"@
            },
    );
    assert(views(out@) =~= want.take(0));
    while i < n
        invariant
            i <= n <= len,
            len == all@.len(),
            want == Seq::new(
                n as nat,
                |i: int|
                    {
                        let p = all@[all@.len() - 1 - i];
                        p.diagnosis@ + " ("@ + p.action@ + ")"@
                    },
            ),
            views(out@) == want.take(i as int),
        decreases n - i,
    {
        let p = &all[len - 1 - i];
        let mut line = cat(p.diagnosis.as_str(), " (");
        line.append(p.action.as_str());
        line.append(")");
        proof {
            lemma_views_push(out@, line);
        }
        out.push(line);
        assert(views(out@) =~= want.take(i + 1));
        i += 1;
    }
    assert(want.take(want.len() as int) =~= want);
    out
}

/// The lines about the last executions for a question's prompt, newest first.
pub fn recent_execution_lines(st: &SvcState) -> (r: Vec<String>)
    ensures
        ({
            let all = st.recent_executions@;
            let n = if all.len() < PROMPT_ITEMS {
                all.len() as int
            } else {
                PROMPT_ITEMS as int
            };
            views(r@) == Seq::new(
                n as nat,
                |i: int|
                    {
                        let e = all[all.len() - 1 - i];
                        e.action@ + ": "@ + (if e.success {
                            "ok"@
                        } else {
                            "failed"@
                        })
                    },
            )
        }),
{
    let all = &st.recent_executions;
    let len: usize = all.len();
    let n: usize = if len < PROMPT_ITEMS {
        len
    } else {
        PROMPT_ITEMS
    };
    let mut out: Vec<String> = Vec::new();
    let mut i: usize = 0;
    let ghost want = Seq::new(
        n as nat,
        |i: int|
            {
                let e = all@[all@.len() - 1 - i];
                e.action@ + ": "@ + (if e.success {
                    "ok"@
                } else {
                    "failed"@
                })
            },
    );
    assert(views(out@) =~= want.take(0));
    while i < n
        invariant
            i <= n <= len,
            len == all@.len(),
            want == Seq::new(
                n as nat,
                |i: int|
                    {
                        let e = all@[all@.len() - 1 - i];
                        e.action@ + ": "@ + (if e.success {
                            "ok"@
                        } else {
                            "failed"@
                        })
                    },
            ),
            views(out@) == want.take(i as int),
        decreases n - i,
    {
        let e = &all[len - 1 - i];
        let mut line = cat(e.action.as_str(), ": ");
        let outcome = if e.success {
            "ok"
        } else {
            "failed"
        };
        line.append(outcome);
        proof {
            lemma_views_push(out@, line);
        }
        out.push(line);
        assert(views(out@) =~= want.take(i + 1));
        i += 1;
    }
    assert(want.take(want.len() as int) =~= want);
    out
}

// ── Small answers ─────────────────────────────────────────────────────────────

/// The answer to a change of a learned fact, and the facts to show once it was made.
pub fn learned_fact_changed(
    st: &mut SvcState,
    changed: Result<Vec<LearnedFactView>, String>,
) -> (r: Result<String, String>)
    ensures
        match changed {
            Ok(facts) => said(r, true, "Learned fact updated"@) && *final(st) == (SvcState {
                learned_facts: facts,
                ..*old(st)
            }),
            Err(e) => said(r, false, "Learned fact could not be changed: "@ + e@) && *final(st)
                == *old(st),
        },
{
    match changed {
        Ok(facts) => {
            st.learned_facts = facts;
            Ok("Learned fact updated".to_owned())
        },
        Err(e) => Err(cat("Learned fact could not be changed: ", e.as_str())),
    }
}

/// The answer to a request to undo a change of a registry value; whether it was there to
/// be claimed.
pub fn undo_claimed(claimed: Result<bool, String>) -> (r: Result<String, String>)
    ensures
        match claimed {
            Ok(true) => said(r, true, "Registry undo started"@),
            Ok(false) => said(r, false, "Undo is missing or already claimed"@),
            Err(e) => said(r, false, "Undo could not start: "@ + e@),
        },
{
    match claimed {
        Ok(there) => {
            if there {
                Ok("Registry undo started".to_owned())
            } else {
                Err("Undo is missing or already claimed".to_owned())
            }
        },
        Err(e) => Err(cat("Undo could not start: ", e.as_str())),
    }
}

/// Stop, because something that the service cannot do without is missing.
pub fn fail(st: &mut SvcState, what: &str, e: &str)
    ensures
        *final(st) == (SvcState {
            status: final(st).status,
            error: final(st).error,
            ..*old(st)
        }),
        final(st).status@ == "Error"@,
        opt_view(final(st).error) == Some(what@ + ": "@ + e@),
{
    st.status = "Error".to_owned();
    let mut text = cat(what, ": ");
    text.append(e);
    st.error = Some(text);
}

// ── What the commands come to ─────────────────────────────────────────────────

/// Pausing stops and resuming starts the monitoring, whichever of the two is due, and changes
/// nothing else but the status.
pub proof fn pausing_changes_the_pause(before: SvcState, after: SvcState, now: i64)
    requires
        pause_toggled(before, after, now),
    ensures
        after.paused == !before.paused,
        after.pending == before.pending && after.recent_problems == before.recent_problems
            && after.recent_executions == before.recent_executions && after.error == before.error
            && after.gaming_manual == before.gaming_manual && after.gaming_until
            == before.gaming_until && after.updater == before.updater,
{
}

/// A game that starts raises the power plan and one that ends restores it; a message that changes
/// nothing about whether a game is taken to run does neither, and leaves the loop alone. At the
/// end of a game everything is looked at anew.
pub proof fn power_plan_follows_the_game(
    st: &mut SvcState,
    lp: &mut LoopState,
    on: bool,
    manual: bool,
    now_secs: i64,
    now: u64,
    r: (PowerEdge, Result<String, String>),
)
    requires
        call_ensures(set_gaming, (st, lp, on, manual, now_secs, now), r),
    ensures
        r.0 is Boost <==> !gaming_at(*old(st), now_secs) && gaming_at(*final(st), now_secs),
        r.0 is Restore <==> gaming_at(*old(st), now_secs) && !gaming_at(*final(st), now_secs),
        manual ==> final(st).gaming_manual == on,
        !manual ==> final(st).gaming_manual == old(st).gaming_manual,
        r.0 is Nothing ==> *final(lp) == *old(lp),
        r.0 is Boost ==> final(lp).was_gaming && final(lp).last_fingerprint == old(lp).last_fingerprint && final(lp).react_at == old(lp).react_at,
        r.0 is Restore ==> !final(lp).was_gaming && final(lp).last_fingerprint is None && final(lp).react_at is Some && (old(lp).react_at is Some ==> final(lp).react_at == old(lp).react_at),
        r.1 is Ok,
        final(st).paused == old(st).paused && final(st).pending == old(st).pending,
{
}

/// A blank model is named as the provider's default, any other by its own name.
pub proof fn model_is_named(model: Seq<char>)
    ensures
        trim(model).len() > 0 ==> shown_model(model) == model,
        trim(model).len() == 0 ==> shown_model(model) == "provider default"@,
{
}

/// An error is about the provider where it starts by saying so, and only such an error is made up
/// for by settings that are saved.
pub proof fn saved_settings_make_up_for_the_provider(
    st: &mut SvcState,
    settings: UiSettings,
    needs_restart: bool,
    portable: bool,
    now: i64,
    r: Result<String, String>,
)
    requires
        call_ensures(settings_saved, (st, settings, needs_restart, portable, now), r),
    ensures
        old(st).error is None ==> final(st).error is None,
        old(st).error matches Some(e) ==> ("AI provider not configured"@.is_prefix_of(e@)
            ==> final(st).error is None) && (!"AI provider not configured"@.is_prefix_of(e@)
            ==> final(st).error == Some(e)),
        final(st).settings == Some(settings),
        r is Ok,
{
}

/// A check that is started is shown as running in its phase; what was found before stays.
pub proof fn started_check_is_shown(before: SvcState, phase: Seq<char>, after: SvcState)
    requires
        check_started(before, phase, after),
    ensures
        after.updater_running && after.updater.running && after.updater.phase@ == phase,
        after.updater.apps == before.updater.apps && after.updater.notes == before.updater.notes
            && after.updater.last_run == before.updater.last_run && after.updater.next_run
            == before.updater.next_run && after.updater.enabled == before.updater.enabled,
        after.paused == before.paused && after.pending == before.pending && after.error
            == before.error,
{
}

/// A check that the user asks for starts unless monitoring is paused or one runs; then nothing
/// changes and the user is told.
pub proof fn asked_check_starts_unless_it_may_not(st: &mut SvcState, r: Result<String, String>)
    requires
        call_ensures(run_updates_now, (st,), r),
    ensures
        r is Ok <==> !old(st).paused && !old(st).updater_running,
        r is Err ==> *final(st) == *old(st),
        r is Ok ==> final(st).updater_running && final(st).updater.apps == old(st).updater.apps,
{
}

/// Only an application that failed can be tried again, by its identity in any ASCII case.
pub proof fn only_failed_updates_are_tried_again(
    apps: &Vec<UpdaterAppRow>,
    id: &str,
    valid: bool,
    r: Option<UpdaterAppRow>,
)
    requires
        call_ensures(failed_update_for_retry, (apps, id, valid), r),
    ensures
        r matches Some(row) ==> valid && row.state@ == "failed"@ && same_ignoring_ascii_case(
            row.id@,
            id@,
        ),
        !valid ==> r is None,
{
}

/// An application is the failed one of an identity where it is of that identity, in any ASCII
/// case, and its update failed.
pub proof fn failed_application_is_told_by_its_state(app: UpdaterAppRow, id: Seq<char>)
    ensures
        failed_app(app, id) <==> same_ignoring_ascii_case(app.id@, id) && app.state@ == "failed"@,
{
}

/// An identity counts without the white space around it and in lower case.
pub proof fn identity_is_trimmed_and_lowered(id: Seq<char>)
    ensures
        app_key(id) == unicode_lowercase(trim(id)),
{
}

/// Clearing the history forgets the applications, the notes, the attempts and the cost, and
/// nothing about when checks were or are.
pub proof fn cleared_history_keeps_the_times(
    before: SvcState,
    facts: Vec<LearnedFactView>,
    after: SvcState,
)
    requires
        history_forgotten(before, facts, after),
    ensures
        after.updater.apps@.len() == 0 && after.updater.notes@.len() == 0
            && after.updater.recent@.len() == 0 && after.updater.last_cost_usd == (Amount {
            bits: 0,
        }),
        after.learned_facts == facts,
        after.updater.last_run == before.updater.last_run && after.updater.next_run
            == before.updater.next_run && after.updater.last_clean_run
            == before.updater.last_clean_run && after.updater.enabled == before.updater.enabled
            && after.updater.settings == before.updater.settings && after.updater.app_notes
            == before.updater.app_notes,
        after.pending == before.pending && after.recent_executions == before.recent_executions,
{
}

/// The next check comes an interval after the last one, or after now where there was none; where
/// updates are switched off there is none.
pub proof fn next_check_comes_an_interval_later(last_run: i64, interval: i64, now: i64)
    requires
        0 <= interval,
        last_run + interval <= i64::MAX,
        now + interval <= i64::MAX,
    ensures
        next_check(false, last_run, interval, now) == 0,
        last_run > 0 ==> next_check(true, last_run, interval, now) == last_run + interval,
        last_run <= 0 ==> next_check(true, last_run, interval, now) == now + interval,
{
    capped_numbers_are_the_nearest(last_run, interval);
    capped_numbers_are_the_nearest(now, interval);
}

/// A setting is shown at the applications of its identity, in any ASCII case, and at no other; of
/// those only whether they are passed over and the note change.
pub proof fn setting_is_shown_at_its_application(
    before: Seq<UpdaterAppRow>,
    key: Seq<char>,
    ignore: Option<bool>,
    note: Option<Seq<char>>,
    after: Seq<UpdaterAppRow>,
    i: int,
)
    requires
        rows_set(before, key, ignore, note, after),
        0 <= i < before.len(),
    ensures
        after.len() == before.len(),
        !same_ignoring_ascii_case(before[i].id@, key) ==> after[i] == before[i],
        same_ignoring_ascii_case(before[i].id@, key) ==> {
            &&& after[i].id == before[i].id && after[i].name == before[i].name && after[i].state
                == before[i].state && after[i].rest == before[i].rest
            &&& ignore is Some ==> after[i].ignored == ignore->0
            &&& ignore is None ==> after[i].ignored == before[i].ignored
            &&& note is Some ==> after[i].note@ == note->0
            &&& note is None ==> after[i].note@ == before[i].note@
        },
{
    assert(row_set(before[i], key, ignore, note, after[i]));
}

/// A note that is given along is taken without the white space around it; a blank one is none.
pub proof fn blank_note_is_none(note: Seq<char>)
    ensures
        trim(note).len() == 0 ==> given_note(note) is None,
        trim(note).len() > 0 ==> given_note(note) == Some(trim(note)),
{
}

/// What is shown once an application's setting or note is saved: the setting at the application,
/// and the notes and settings as they were saved; nothing else changes.
pub proof fn saved_setting_is_shown(
    before: SvcState,
    key: Seq<char>,
    ignore: bool,
    note: Seq<char>,
    app_notes: Vec<String>,
    settings: String,
    after: SvcState,
    i: int,
)
    requires
        app_setting_shown(before, key, ignore, note, app_notes, settings, after),
        0 <= i < before.updater.apps@.len(),
    ensures
        same_ignoring_ascii_case(before.updater.apps@[i].id@, key)
            ==> after.updater.apps@[i].ignored == ignore && (trim(note).len() > 0
            ==> after.updater.apps@[i].note@ == trim(note)) && (trim(note).len() == 0
            ==> after.updater.apps@[i].note@ == before.updater.apps@[i].note@),
        !same_ignoring_ascii_case(before.updater.apps@[i].id@, key) ==> after.updater.apps@[i]
            == before.updater.apps@[i],
        after.updater.app_notes == app_notes && after.updater.settings == settings,
        after.updater.last_run == before.updater.last_run && after.pending == before.pending,
{
    assert(row_set(
        before.updater.apps@[i],
        key,
        Some(ignore),
        given_note(note),
        after.updater.apps@[i],
    ));
}

/// What is shown once an application's note is saved: the note at the application, whether it is
/// passed over as before.
pub proof fn saved_note_is_shown(
    before: SvcState,
    key: Seq<char>,
    note: Seq<char>,
    app_notes: Vec<String>,
    after: SvcState,
    i: int,
)
    requires
        app_note_shown(before, key, note, app_notes, after),
        0 <= i < before.updater.apps@.len(),
    ensures
        same_ignoring_ascii_case(before.updater.apps@[i].id@, key)
            ==> after.updater.apps@[i].note@ == note && after.updater.apps@[i].ignored
            == before.updater.apps@[i].ignored,
        !same_ignoring_ascii_case(before.updater.apps@[i].id@, key) ==> after.updater.apps@[i]
            == before.updater.apps@[i],
        after.updater.app_notes == app_notes && after.updater.settings == before.updater.settings,
{
    assert(row_set(before.updater.apps@[i], key, None, Some(note), after.updater.apps@[i]));
}

/// An application is known where one of its identity is listed, in any ASCII case.
pub proof fn listed_applications_are_known(
    apps: &Vec<UpdaterAppRow>,
    others: &Vec<String>,
    key: &str,
    r: bool,
    i: int,
)
    requires
        call_ensures(app_is_known, (apps, others, key), r),
    ensures
        0 <= i < apps@.len() && same_ignoring_ascii_case(apps@[i].id@, key@) ==> r,
        0 <= i < others@.len() && same_ignoring_ascii_case(others@[i]@, key@) ==> r,
        apps@.len() == 0 && others@.len() == 0 ==> !r,
        (forall|k: int|
            0 <= k < apps@.len() ==> !same_ignoring_ascii_case((#[trigger] apps@[k]).id@, key@)) && (
        forall|k: int|
            0 <= k < others@.len() ==> !same_ignoring_ascii_case((#[trigger] others@[k])@, key@))
            ==> !r,
{
}

/// An application that was tried again takes the place of the one of its identity, or comes behind
/// the others where it is new; the others stay.
pub proof fn tried_application_takes_its_place(
    apps: Seq<UpdaterAppRow>,
    row: UpdaterAppRow,
    i: int,
    k: int,
)
    ensures
        0 <= i < apps.len() && same_ignoring_ascii_case(apps[i].id@, row.id@) && (forall|j: int|
            0 <= j < i ==> !same_ignoring_ascii_case((#[trigger] apps[j]).id@, row.id@)) ==> {
            let after = app_replaced(apps, row);
            &&& after.len() == apps.len()
            &&& after[i] == row
            &&& 0 <= k < apps.len() && k != i ==> after[k] == apps[k]
        },
        (forall|j: int|
            0 <= j < apps.len() ==> !same_ignoring_ascii_case((#[trigger] apps[j]).id@, row.id@))
            ==> app_replaced(apps, row) == apps.push(row),
{
    lemma_app_at(apps, row.id@);
}

/// The applications of a check that tried some are replaced one after the other.
pub proof fn tried_applications_take_their_places(
    apps: Seq<UpdaterAppRow>,
    rows: Seq<UpdaterAppRow>,
    row: UpdaterAppRow,
)
    ensures
        apps_replaced(apps, Seq::empty()) == apps,
        apps_replaced(apps, rows.push(row)) == app_replaced(apps_replaced(apps, rows), row),
{
    assert(rows.push(row).drop_last() =~= rows);
}

/// A check of all applications sets when the last was; one that tried a single application does
/// not, and leaves the other applications.
pub proof fn full_check_sets_its_time(
    st: &mut SvcState,
    summary: CycleSummary,
    rows: Vec<UpdaterAppRow>,
    r: i64,
)
    requires
        call_ensures(fold_update, (st, summary, rows), r),
    ensures
        !final(st).updater_running && !final(st).updater.running,
        summary.targeted ==> final(st).updater.last_run == old(st).updater.last_run && final(st).updater.last_clean_run == old(st).updater.last_clean_run,
        !summary.targeted ==> final(st).updater.last_run == summary.completed_at && final(st).updater.apps@ == rows@,
        !summary.targeted && summary.clean_at > 0 ==> final(st).updater.last_clean_run
            == summary.clean_at,
        !summary.targeted && summary.clean_at <= 0 ==> final(st).updater.last_clean_run == old(st).updater.last_clean_run,
        summary.targeted && rows@.len() == 0 ==> final(st).updater.apps@ == old(st).updater.apps@,
        final(st).updater.notes == summary.notes,
        r == final(st).updater.last_run,
{
}

/// Nothing is left of a check that was, was not clean and was not restored.
pub proof fn lost_check_was_not_clean(st: SvcState, restored: bool)
    ensures
        restored ==> !check_is_lost(st, restored),
        st.updater.last_run <= 0 ==> !check_is_lost(st, restored),
        st.updater.last_run == st.updater.last_clean_run ==> !check_is_lost(st, restored),
        !restored && st.updater.last_run > 0 && st.updater.last_clean_run != st.updater.last_run
            ==> check_is_lost(st, restored),
{
}

/// The advisor's new settings are shown; what it did today stays as it was.
pub proof fn advisor_settings_are_shown(
    before: SvcState,
    enabled: bool,
    settings: AdvisorSettingsView,
    after: SvcState,
)
    requires
        advisor_set(before, enabled, settings, after),
    ensures
        after.advisor matches Some(a) && a.enabled == enabled && a.settings == settings,
        before.advisor matches Some(b) ==> after.advisor->0.escalated == b.escalated
            && after.advisor->0.escalation_model == b.escalation_model && after.advisor->0.reason
            == b.reason && after.advisor->0.spent_today_usd == b.spent_today_usd,
        before.advisor is None ==> !after.advisor->0.escalated && after.advisor->0.spent_today_usd
            == (Amount { bits: 0 }),
        after.updater == before.updater && after.pending == before.pending,
{
}

/// The questions that are shown are those that are kept, each with its answer, and whether one is
/// being answered.
pub proof fn shown_questions_are_the_kept_ones(
    before: SvcState,
    error: Option<Seq<char>>,
    after: SvcState,
    i: int,
)
    requires
        ask_shown(before, error, after),
    ensures
        after.ask matches Some(a) && a.running == after.ask_running && opt_view(a.error) == error
            && a.entries@.len() == after.ask_entries@.len(),
        0 <= i < after.ask_entries@.len() ==> after.ask->0.entries@[i].question@
            == after.ask_entries@[i].question@ && after.ask->0.entries@[i].answer@
            == after.ask_entries@[i].answer@ && after.ask->0.entries@[i].at
            == after.ask_entries@[i].at,
{
    if 0 <= i < after.ask_entries@.len() {
        assert(after.ask_entries@[i].same_as(&after.ask->0.entries@[i]));
    }
}

/// A new question comes first; the others follow in order, and only the oldest is forgotten, at
/// the cap.
pub proof fn new_question_comes_first(entries: Seq<AskEntry>, entry: AskEntry)
    ensures
        asked(entries, entry)[0] == entry,
        asked(entries, entry).skip(1).is_prefix_of(entries),
        entries.len() < ASK_CAP ==> asked(entries, entry).skip(1) == entries,
        entries.len() == ASK_CAP ==> asked(entries, entry).len() == ASK_CAP,
{
    let after = asked(entries, entry);
    if entries.len() >= ASK_CAP {
        assert(after.skip(1) =~= entries.drop_last());
    } else {
        assert(after.skip(1) =~= entries);
    }
}

/// While a scan runs, what was found before stays in sight.
pub proof fn found_stays_while_a_scan_runs(before: Option<ScanView>, after: Option<ScanView>)
    requires
        rescanning(before, after),
    ensures
        after matches Some(v) && v.running && v.error is None,
        before matches Some(b) ==> after->0.entries == b.entries && after->0.scanned_at
            == b.scanned_at,
        before is None ==> after->0.entries@.len() == 0 && after->0.scanned_at == 0,
{
}

/// A scan that is over shows what it found and when; one that failed shows why, and what was found
/// before.
pub proof fn finished_scan_shows_what_it_found(
    before: Option<ScanView>,
    found: Result<Vec<String>, String>,
    now: i64,
    after: Option<ScanView>,
)
    requires
        scanned(before, found, now, after),
    ensures
        after matches Some(v) && !v.running,
        found matches Ok(entries) ==> after->0.entries == entries && after->0.scanned_at == now
            && after->0.error is None,
        found matches Err(e) ==> after->0.error == Some(e),
        found is Err && before is Some ==> after->0.entries == before->0.entries
            && after->0.scanned_at == before->0.scanned_at,
        found is Err && before is None ==> after->0.entries@.len() == 0,
{
}

/// A name stands for the first pair that has it.
pub proof fn name_stands_for_its_first_pair<A>(pairs: Seq<(String, A)>, name: Seq<char>, i: int)
    ensures
        0 <= i < pairs.len() && pairs[i].0@ == name && (forall|k: int|
            0 <= k < i ==> (#[trigger] pairs[k]).0@ != name) ==> pair_at(pairs, name) == Some(
            pairs[i].1,
        ),
        (forall|k: int| 0 <= k < pairs.len() ==> (#[trigger] pairs[k]).0@ != name) ==> pair_at(
            pairs,
            name,
        ) is None,
    decreases pairs.len(),
{
    if pairs.len() > 0 {
        let rest = pairs.skip(1);
        name_stands_for_its_first_pair(rest, name, i - 1);
        if 0 < i < pairs.len() && forall|k: int| 0 <= k < i ==> (#[trigger] pairs[k]).0@ != name {
            assert(pairs[0].0@ != name);
            assert(rest[i - 1] == pairs[i]);
            assert forall|k: int| 0 <= k < i - 1 implies (#[trigger] rest[k]).0@ != name by {
                assert(rest[k] == pairs[k + 1]);
            }
        }
        if forall|k: int| 0 <= k < pairs.len() ==> (#[trigger] pairs[k]).0@ != name {
            assert(pairs[0].0@ != name);
            assert forall|k: int| 0 <= k < rest.len() implies (#[trigger] rest[k]).0@ != name by {
                assert(rest[k] == pairs[k + 1]);
            }
        }
    }
}

/// The startup entries of a user who is not the active one are forgotten, with what they stand
/// for; those of the active one stay.
pub proof fn entries_of_another_user_are_forgotten(
    before: SvcState,
    active: Option<Seq<char>>,
    after: SvcState,
)
    requires
        cache_checked(before, active, after),
    ensures
        before.startup_owner_sid matches Some(owner) ==> (active is None
            || !same_ignoring_ascii_case(owner@, active->0) ==> after.startup is None
            && after.startup_targets@.len() == 0 && after.startup_owner_sid is None
            && !after.startup_scan_running),
        before.startup_owner_sid matches Some(owner) ==> (active matches Some(user) ==> (
        same_ignoring_ascii_case(owner@, user) ==> after == before)),
        before.startup_owner_sid is None ==> after == before,
        after.disk_targets == before.disk_targets && after.pending == before.pending,
{
}

/// A scan's result is taken only for the user who asked for it, who is still the active one, and
/// whose entries it holds.
pub proof fn scan_is_taken_for_its_user(
    st: SvcState,
    scan_sid: Seq<char>,
    active: Option<Seq<char>>,
    found: Result<StartupFound, String>,
)
    ensures
        acceptable_scan(st, scan_sid, active, found) <==> {
            &&& st.startup_owner_sid is Some && same_ignoring_ascii_case(
                (st.startup_owner_sid->0)@,
                scan_sid,
            )
            &&& active is Some && same_ignoring_ascii_case(scan_sid, active->0)
            &&& found is Err || same_ignoring_ascii_case((found->Ok_0).owner_sid@, scan_sid)
        },
{
}

/// Switching a startup entry names a scheduled task by its path and any other entry by its name,
/// and switches it the way that was asked.
pub proof fn startup_entry_is_switched_as_asked(
    name: String,
    location: String,
    hive: String,
    on: bool,
    t: StartupToggle,
    enable: bool,
)
    requires
        switches(FixAction::StartupSet { name, location, hive, enable: on }, t, enable),
    ensures
        on == enable && location == t.location && hive == t.hive,
        t.location@ == "scheduled_task"@ ==> name == t.task_path,
        t.location@ != "scheduled_task"@ ==> name == t.name,
{
}

/// An application that is shown again is passed over where it is listed so now, and has the note
/// that it has now, or none; all else is as it was kept.
pub proof fn restored_application_has_the_settings_of_now(
    before: UpdaterAppRow,
    ignored: Seq<String>,
    notes: Seq<(String, String)>,
    after: UpdaterAppRow,
    i: int,
)
    requires
        restored_row(before, ignored, notes, after),
    ensures
        after.id == before.id && after.name == before.name && after.state == before.state
            && after.rest == before.rest,
        0 <= i < ignored.len() && same_ignoring_ascii_case(ignored[i]@, before.id@) ==> after.ignored,
        ignored.len() == 0 ==> !after.ignored,
        0 <= i < notes.len() && notes[i].0@ == before.id@ && (forall|k: int|
            0 <= k < i ==> (#[trigger] notes[k]).0@ != before.id@) ==> after.note@ == notes[i].1@,
        (forall|k: int| 0 <= k < notes.len() ==> (#[trigger] notes[k]).0@ != before.id@)
            ==> after.note@.len() == 0,
{
    name_stands_for_its_first_pair(notes, before.id@, i);
}

/// The images among what came with a question are those of that kind that hold something, and the
/// texts those of the other kind, in order.
pub proof fn attachments_are_sorted_by_kind(list: Seq<Attachment>)
    ensures
        images_of(list) == list.filter(
            |a: Attachment| a.kind@ == "image"@ && a.content@.len() > 0,
        ).map_values(
            |a: Attachment|
                (
                    a.content@,
                    if a.media_type@.len() == 0 {
                        "image/jpeg"@
                    } else {
                        a.media_type@
                    },
                ),
        ),
        texts_of(list) == list.filter(|a: Attachment| a.kind@ == "text"@).map_values(
            |a: Attachment| (a.name@, a.content@),
        ),
    decreases list.len(),
{
    reveal(Seq::filter);
    let image = |a: Attachment| a.kind@ == "image"@ && a.content@.len() > 0;
    let text = |a: Attachment| a.kind@ == "text"@;
    let shown = |a: Attachment|
        (
            a.content@,
            if a.media_type@.len() == 0 {
                "image/jpeg"@
            } else {
                a.media_type@
            },
        );
    let told = |a: Attachment| (a.name@, a.content@);
    if list.len() > 0 {
        let before = list.drop_last();
        let a = list.last();
        attachments_are_sorted_by_kind(before);
        if image(a) {
            assert(list.filter(image) == before.filter(image).push(a));
            assert(before.filter(image).push(a).map_values(shown)
                =~= before.filter(image).map_values(shown).push(shown(a)));
        }
        if text(a) {
            assert(list.filter(text) == before.filter(text).push(a));
            assert(before.filter(text).push(a).map_values(told)
                =~= before.filter(text).map_values(told).push(told(a)));
        }
    } else {
        assert(list.filter(image).map_values(shown) =~= images_of(list));
        assert(list.filter(text).map_values(told) =~= texts_of(list));
    }
}

/// An answer is what the model said, without the white space around it, at its end; where images
/// could not be shown to it, a remark with their number comes first.
pub proof fn answer_ends_in_what_was_said(said: Seq<char>, images: nat)
    ensures
        answer_text(said, false, images) == trim(said),
        trim(said).len() > 0 ==> trim(said).is_suffix_of(answer_text(said, true, images))
            && answer_text(said, true, images).len() > trim(said).len(),
        trim(said).len() == 0 ==> answer_text(said, true, images).len() == 0,
{
    reveal_strlit("(Note: your AI provider can't read images, so ");
    let all = answer_text(said, true, images);
    if trim(said).len() > 0 {
        assert(all.skip(all.len() - trim(said).len()) =~= trim(said));
    }
}

// ── What the remaining operations do ──────────────────────────────────────────

/// Forgetting the problems that are shown, or the executions, leaves the other and all else.
pub proof fn cleared_list_leaves_the_other(
    a: &mut SvcState,
    b: &mut SvcState,
    x: Result<String, String>,
    y: Result<String, String>,
)
    requires
        call_ensures(clear_problems, (a,), x),
        call_ensures(clear_executions, (b,), y),
    ensures
        final(a).recent_problems@.len() == 0 && final(a).recent_executions == old(a).recent_executions && final(a).pending == old(a).pending,
        final(b).recent_executions@.len() == 0 && final(b).recent_problems == old(b).recent_problems && final(b).pending == old(b).pending,
        x is Ok && y is Ok,
{
}

/// A fresh look shows the services that failed now, and does not settle an error away.
pub proof fn fresh_look_keeps_an_error(
    st: &mut SvcState,
    failed: Vec<String>,
    now: i64,
    r: Result<String, String>,
)
    requires
        call_ensures(refresh_status, (st, failed, now), r),
    ensures
        final(st).failed_services == failed,
        old(st).status@ == "Error"@ ==> final(st).status@ == "Error"@,
        final(st).error == old(st).error && final(st).pending == old(st).pending,
{
}

/// One trial of the provider runs at a time, and none with a configuration that is not valid.
pub proof fn one_provider_test_runs_at_a_time(
    running: &mut bool,
    configured: Result<(), String>,
    r: Result<(), String>,
)
    requires
        call_ensures(begin_provider_test, (running, configured), r),
    ensures
        r is Ok <==> !*old(running) && configured is Ok,
        r is Ok ==> *final(running),
        r is Err ==> *final(running) == *old(running),
{
}

/// A trial worked where the provider answered with some text, and is over either way.
pub proof fn provider_works_where_it_answers(
    running: &mut bool,
    provider: &str,
    model: &str,
    reply: ProviderReply,
    r: Result<String, String>,
)
    requires
        call_ensures(provider_test_result, (running, provider, model, reply), r),
    ensures
        !*final(running),
        reply matches ProviderReply::Text(text) ==> (r is Ok <==> trim(text@).len() > 0),
        !(reply is Text) ==> r is Err,
{
}

/// Settings that were refused or could not be saved are told as an error, and change nothing else.
pub proof fn refused_settings_are_told(
    a: &mut SvcState,
    b: &mut SvcState,
    e: &str,
    x: Result<String, String>,
    y: Result<String, String>,
)
    requires
        call_ensures(settings_rejected, (a, e), x),
        call_ensures(settings_unsaved, (b, e), y),
    ensures
        x is Err && final(a).error is Some && final(a).settings == old(a).settings && final(a).status == old(a).status,
        y is Err && final(b).error is Some && final(b).settings == old(b).settings && final(b).status == old(b).status,
{
}

/// A message about how far a check is counts while one runs, and is passed over after its end.
pub proof fn progress_counts_while_a_check_runs(st: &mut SvcState, phase: String, r: bool)
    requires
        call_ensures(update_progress, (st, phase), r),
    ensures
        r <==> old(st).updater_running,
        r ==> final(st).updater.phase == phase && final(st).updater.apps == old(st).updater.apps,
        !r ==> *final(st) == *old(st),
{
}

/// The history is not cleared while a check runs.
pub proof fn history_waits_for_the_check(st: &SvcState, r: Result<(), String>)
    requires
        call_ensures(may_clear_history, (st,), r),
    ensures
        r is Ok <==> !st.updater_running,
{
}

/// An application's setting has to be saved where it or the note changed, and nothing is saved
/// where either was refused.
pub proof fn refused_setting_is_not_saved(
    ignored: Result<bool, String>,
    noted: Option<Result<bool, String>>,
    r: Result<bool, String>,
)
    requires
        call_ensures(app_setting_changed, (ignored, noted), r),
    ensures
        ignored is Err && noted is None ==> r is Err,
        noted is Some && noted->0 is Err ==> r is Err,
        ignored is Err && noted is Some ==> r is Err,
        ignored matches Ok(a) ==> (noted is None ==> r == Ok::<bool, String>(a)) && (noted matches
            Some(Ok(b)) ==> r == Ok::<bool, String>(a || b)),
{
}

/// The end of a check shows it idle, with its cost, and sets the next one an interval after the
/// last where updates are on.
pub proof fn finished_check_sets_the_next(
    st: &mut SvcState,
    kept: Result<(), String>,
    cost: Amount,
    recent: Option<Vec<String>>,
    enabled: bool,
    interval: i64,
)
    requires
        call_ensures(finish_update, (st, kept, cost, recent, enabled, interval), ()),
    ensures
        final(st).updater.phase@ == "idle"@ && final(st).updater.last_cost_usd == cost,
        !enabled ==> final(st).updater.next_run == 0,
        enabled && i64::MIN <= old(st).updater.last_run + interval <= i64::MAX ==> final(st).updater.next_run == old(st).updater.last_run + interval,
        recent matches Some(list) ==> final(st).updater.recent == list,
        recent is None ==> final(st).updater.recent == old(st).updater.recent,
        kept is Ok ==> final(st).updater.notes == old(st).updater.notes,
        kept is Err ==> final(st).updater.notes@.len() == old(st).updater.notes@.len() + 1,
{
    capped_numbers_are_the_nearest(old(st).updater.last_run, interval);
    if kept is Err {
        assert(views(final(st).updater.notes@).len() == final(st).updater.notes@.len());
        assert(views(old(st).updater.notes@).len() == old(st).updater.notes@.len());
    }
}

/// When the last check was is what was kept of it, or else the later of the last attempt and the
/// last clean check.
pub proof fn last_check_is_the_latest_known(persisted: i64, recent: i64, clean: i64, r: i64)
    requires
        call_ensures(seed_last_run, (persisted, recent, clean), r),
    ensures
        persisted > 0 ==> r == persisted,
        persisted <= 0 ==> r >= recent && r >= clean && (r == recent || r == clean),
{
}

/// A question that is refused is not being answered for that; one that is taken is, and a refusal
/// is no longer shown.
pub proof fn refused_question_is_told(
    a: &mut SvcState,
    b: &mut SvcState,
    reason: &str,
    x: Result<String, String>,
    y: Result<String, String>,
)
    requires
        call_ensures(reject_ask, (a, reason), x),
        call_ensures(begin_ask, (b,), y),
    ensures
        x is Err && final(a).ask_running == old(a).ask_running && final(a).ask_entries == old(a).ask_entries && (final(a).ask matches Some(s) && opt_view(s.error) == Some(reason@)),
        y is Ok && final(b).ask_running && final(b).ask_entries == old(b).ask_entries && (final(b).ask matches Some(s) && s.error is None && s.running),
{
}

/// An answer is put first and is no longer awaited; a failure is told and keeps the questions.
pub proof fn answer_is_put_first(
    st: &mut SvcState,
    answer: Result<AskEntry, String>,
    now: i64,
)
    requires
        call_ensures(ask_done, (st, answer, now), ()),
    ensures
        !final(st).ask_running && final(st).last_ask_at == now,
        answer matches Ok(entry) ==> final(st).ask_entries@.len() > 0 && final(st).ask_entries@[0]
            == entry,
        answer is Err ==> final(st).ask_entries == old(st).ask_entries && (final(st).ask matches
            Some(s) && s.error is Some),
        final(st).pending == old(st).pending,
{
    if answer is Ok {
        new_question_comes_first(old(st).ask_entries@, answer->Ok_0);
    }
}

/// The questions are forgotten unless that is refused.
pub proof fn questions_are_forgotten_unless_refused(
    st: &mut SvcState,
    refusal: Option<&str>,
    r: Result<String, String>,
)
    requires
        call_ensures(clear_ask, (st, refusal), r),
    ensures
        refusal is Some ==> r is Err && *final(st) == *old(st),
        refusal is None ==> r is Ok && final(st).ask_entries@.len() == 0 && final(st).last_ask_at
            == 0,
{
}

/// A scan of the disk starts unless monitoring is paused or one runs, and its end shows what it
/// found, with what each entry stands for; a failed one keeps both.
pub proof fn disk_scan_starts_and_ends(
    a: &mut SvcState,
    b: &mut SvcState,
    found: Result<(Vec<String>, Vec<(String, FixAction)>), String>,
    now: i64,
    r: Result<String, String>,
)
    requires
        call_ensures(begin_disk_scan, (a,), r),
        call_ensures(disk_scan_done, (b, found, now), ()),
    ensures
        r is Ok <==> !old(a).paused && !old(a).disk_scan_running,
        r is Ok ==> final(a).disk_scan_running && final(a).disk_targets == old(a).disk_targets,
        r is Err ==> *final(a) == *old(a),
        !final(b).disk_scan_running,
        found matches Ok((entries, targets)) ==> final(b).disk_targets == targets && (final(b).disk_insights matches Some(v) && v.entries == entries && v.scanned_at == now),
        found is Err ==> final(b).disk_targets == old(b).disk_targets,
{
}

/// An entry of the last scan stands for its own action, and any other name for none; what runs is
/// what was found, not what the user sends.
pub proof fn entry_of_the_scan_stands_for_its_action(
    st: &SvcState,
    id: &str,
    r: Result<UserRequest, String>,
    i: int,
)
    requires
        call_ensures(disk_target, (st, id), r),
    ensures
        0 <= i < st.disk_targets@.len() && st.disk_targets@[i].0@ == id@ && (forall|k: int|
            0 <= k < i ==> (#[trigger] st.disk_targets@[k]).0@ != id@) ==> r is Ok
            && r->Ok_0.action == st.disk_targets@[i].1 && !r->Ok_0.force_approval,
        (forall|k: int| 0 <= k < st.disk_targets@.len() ==> (#[trigger] st.disk_targets@[k]).0@ != id@)
            ==> r is Err,
{
    name_stands_for_its_first_pair(st.disk_targets@, id@, i);
}

/// A startup entry is switched for the active user alone, always by way of an approval.
pub proof fn startup_entry_is_switched_for_its_user(
    st: &mut SvcState,
    id: &str,
    enable: bool,
    active: Option<&str>,
    r: Result<UserRequest, String>,
)
    requires
        call_ensures(startup_action, (st, id, enable, active), r),
    ensures
        r matches Ok(request) ==> request.force_approval && active is Some && (old(st).startup_owner_sid matches Some(owner) && same_ignoring_ascii_case(owner@, active->0@))
            && (request.action matches FixAction::StartupSet { enable: on, .. } && on == enable),
        active is None ==> r is Err,
        old(st).startup_owner_sid is None ==> r is Err,
        old(st).startup_targets@.len() == 0 ==> r is Err,
{
    if old(st).startup_targets@.len() == 0 {
        name_stands_for_its_first_pair(old(st).startup_targets@, id@, 0);
    }
}

/// The result of a startup scan is taken only for its own user; then it shows what was found.
pub proof fn startup_scan_is_taken_for_its_user(
    st: &mut SvcState,
    scan_sid: &str,
    active: Option<&str>,
    found: Result<StartupFound, String>,
    now: i64,
    r: bool,
)
    requires
        call_ensures(startup_scan_done, (st, scan_sid, active, found, now), r),
    ensures
        active is None ==> !r,
        old(st).startup_owner_sid is None ==> !r,
        r && found is Ok ==> final(st).startup_targets == found->Ok_0.targets && !final(st).startup_scan_running && same_ignoring_ascii_case(found->Ok_0.owner_sid@, scan_sid@),
        r && found is Err ==> final(st).startup_targets == old(st).startup_targets,
        final(st).pending == old(st).pending,
{
}

/// A check that never finished is reported at its time, never as clean and at no cost.
pub proof fn unfinished_check_is_never_clean(
    timed_out: bool,
    limit: u64,
    targeted: bool,
    now: i64,
    r: CycleSummary,
)
    requires
        call_ensures(unfinished_cycle, (timed_out, limit, targeted, now), r),
    ensures
        r.clean_at == 0 && r.completed_at == now && r.targeted == targeted,
        r.cost_usd == (Amount { bits: 0 }),
        views(r.notes@).len() == 1,
{
}

/// The end of an answer is the answer where the model said something, and else an error.
pub proof fn empty_answer_is_an_error(
    end: AnswerEnd,
    dropped: bool,
    images: u64,
    r: Result<String, String>,
)
    requires
        call_ensures(finish_answer, (end, dropped, images), r),
    ensures
        end matches AnswerEnd::Text(text) ==> (r is Ok <==> trim(text@).len() > 0) && (r is Ok
            && !dropped ==> r->Ok_0@ == trim(text@)),
        !(end is Text) ==> r is Err,
{
    if end is Text {
        answer_ends_in_what_was_said((end->Text_0)@, images as nat);
    }
}

/// A question's prompt tells the last eight problems and executions at most, the newest first.
pub proof fn prompt_tells_the_newest_first(
    st: &SvcState,
    problems: Vec<String>,
    executions: Vec<String>,
    i: int,
)
    requires
        call_ensures(recent_problem_lines, (st,), problems),
        call_ensures(recent_execution_lines, (st,), executions),
    ensures
        problems@.len() <= 8 && problems@.len() <= st.recent_problems@.len(),
        st.recent_problems@.len() <= 8 ==> problems@.len() == st.recent_problems@.len(),
        0 <= i < problems@.len() ==> problems@[i]@ == st.recent_problems@[st.recent_problems@.len()
            - 1 - i].diagnosis@ + " ("@ + st.recent_problems@[st.recent_problems@.len() - 1
            - i].action@ + ")"@,
        executions@.len() <= 8 && executions@.len() <= st.recent_executions@.len(),
        st.recent_executions@.len() <= 8 ==> executions@.len() == st.recent_executions@.len(),
        0 <= i < executions@.len() ==> executions@[i]@ == st.recent_executions@[
            st.recent_executions@.len() - 1 - i
        ].action@ + ": "@ + (if st.recent_executions@[st.recent_executions@.len() - 1 - i].success {
            "ok"@
        } else {
            "failed"@
        }),
{
    assert(views(problems@).len() == problems@.len());
    assert(views(executions@).len() == executions@.len());
    if 0 <= i < problems@.len() {
        assert(views(problems@)[i] == problems@[i]@);
    }
    if 0 <= i < executions@.len() {
        assert(views(executions@)[i] == executions@[i]@);
    }
}

/// An undo is started where it was there to be claimed, and a change of a learned fact is shown
/// where it was made.
pub proof fn claimed_undo_starts(
    claimed: Result<bool, String>,
    r: Result<String, String>,
    st: &mut SvcState,
    changed: Result<Vec<LearnedFactView>, String>,
    x: Result<String, String>,
)
    requires
        call_ensures(undo_claimed, (claimed,), r),
        call_ensures(learned_fact_changed, (st, changed), x),
    ensures
        r is Ok <==> claimed == Ok::<bool, String>(true),
        x is Ok <==> changed is Ok,
        changed matches Ok(facts) ==> final(st).learned_facts == facts,
        changed is Err ==> *final(st) == *old(st),
{
}

/// A service that starts without a provider says so and stays; one whose approvals could not be
/// recovered says that instead, and one with a provider starts without an error.
pub proof fn start_says_what_is_wrong(
    st: &mut SvcState,
    has_provider: bool,
    recovered: Result<usize, String>,
    pending: Option<Vec<crate::proto::PendingApproval>>,
    now: i64,
)
    requires
        call_ensures(settle_startup, (st, has_provider, recovered, pending, now), ()),
    ensures
        recovered is Err ==> final(st).status@ == "Error"@ && final(st).error is Some,
        recovered is Ok && has_provider ==> final(st).error is None,
        recovered is Ok && !has_provider ==> final(st).error == old(st).error && final(st).status
            == old(st).status,
        pending matches Some(list) ==> final(st).pending == list,
        pending is None ==> final(st).pending == old(st).pending,
{
}

/// A check that was kept is shown again only where it is the last full one.
pub proof fn only_the_last_check_is_restored(
    st: &mut SvcState,
    at: i64,
    notes: Vec<String>,
    apps: Vec<UpdaterAppRow>,
    ignored: &Vec<String>,
    app_notes: &Vec<(String, String)>,
    r: bool,
)
    requires
        call_ensures(restore_cycle, (st, at, notes, apps, ignored, app_notes), r),
    ensures
        r <==> at == old(st).updater.last_run,
        !r ==> *final(st) == *old(st),
        r ==> final(st).updater.notes == notes && final(st).updater.apps@.len() == apps@.len()
            && final(st).updater.last_run == old(st).updater.last_run,
{
}

/// A startup entry is switched by the action for that and by no other.
pub proof fn only_the_switch_switches(action: FixAction, t: StartupToggle, enable: bool)
    requires
        switches(action, t, enable),
    ensures
        action is StartupSet,
{
}

} // verus!
