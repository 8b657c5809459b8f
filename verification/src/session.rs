//! The interactive user's session and the machine's system drive.

use crate::paths::{
    component_views, components, on_a_drive, parse_components, starts_on_a_drive, Component,
};
use crate::text::{opt_view, trim, trimmed};
use vstd::prelude::*;
use vstd::string::*;

verus! {

/// One logon session, as the system lists it.
#[derive(Debug, Clone, Copy, PartialEq, Eq, Structural)]
pub struct SessionInfo {
    pub id: u32,
    /// Someone is at the desktop, at the console or over a remote connection.
    pub active: bool,
}

/// Whether a session is an interactive user's: active, and neither the services' session
/// nor no session at all.
pub open spec fn interactive(session: SessionInfo) -> bool {
    session.active && session.id != 0 && session.id != u32::MAX
}

/// The interactive sessions, in order.
pub open spec fn interactive_sessions(sessions: Seq<SessionInfo>) -> Seq<SessionInfo>
    decreases sessions.len(),
{
    if sessions.len() == 0 {
        Seq::empty()
    } else if interactive(sessions.last()) {
        interactive_sessions(sessions.drop_last()).push(sessions.last())
    } else {
        interactive_sessions(sessions.drop_last())
    }
}

/// The only interactive session there is. Two at once are none, since there is no way to
/// choose between their users.
pub fn sole_active_session(sessions: &[SessionInfo]) -> (r: Option<u32>)
    ensures
        r == (if interactive_sessions(sessions@).len() == 1 {
            Some(interactive_sessions(sessions@)[0].id)
        } else {
            None
        }),
{
    let mut count: usize = 0;
    let mut selected: u32 = 0;
    let mut i: usize = 0;
    assert(sessions@.take(0) =~= Seq::<SessionInfo>::empty());
    while i < sessions.len()
        invariant
            i <= sessions@.len(),
            count <= i,
            count == interactive_sessions(sessions@.take(i as int)).len(),
            count > 0 ==> selected == interactive_sessions(sessions@.take(i as int))[0].id,
        decreases sessions@.len() - i,
    {
        let ghost next = sessions@.take(i + 1);
        assert(next.drop_last() =~= sessions@.take(i as int));
        let session = sessions[i];
        assert(next.last() == session);
        if session.active && session.id != 0 && session.id != u32::MAX {
            if count == 0 {
                selected = session.id;
            }
            count += 1;
        }
        i += 1;
    }
    assert(sessions@.take(sessions@.len() as int) =~= sessions@);
    if count == 1 {
        Some(selected)
    } else {
        None
    }
}

/// The root of the drive that a path starts on.
pub open spec fn drive_root_of(path: Seq<char>) -> Option<Seq<char>> {
    let comps = components(path);
    if on_a_drive(comps) {
        Some(comps[0].text() + "\\"@)
    } else {
        None
    }
}

/// The root of the drive that a path starts on, an extended-length drive included.
pub fn drive_root(path: &str) -> (r: Option<String>)
    ensures
        opt_view(r) == drive_root_of(path@),
{
    let comps = parse_components(path);
    if !starts_on_a_drive(&comps) {
        return None;
    }
    assert(component_views(comps@)[0] == comps@[0]@);
    match &comps[0] {
        Component::Prefix(_, text) => {
            let mut root = text.clone();
            root.append("\\");
            Some(root)
        },
        _ => None,
    }
}

/// The root of the drive that Windows stands on: that of the system directory where it is
/// known to be on a drive, else the usual one.
pub fn windows_drive_root(system_root: Option<&str>) -> (r: String)
    ensures
        r@ == (match system_root {
            Some(path) if drive_root_of(path@) is Some => drive_root_of(path@)->0,
            _ => "C:\\"@,
        }),
{
    match system_root {
        Some(path) => match drive_root(path) {
            Some(root) => root,
            None => "C:\\".to_owned(),
        },
        None => "C:\\".to_owned(),
    }
}

/// A headless machine has no interactive desktop session, so no user's profile either.
pub fn active_user_profile_dir() -> (r: Option<String>)
    ensures
        r is None,
{
    None
}

/// The root of a machine without drive letters.
pub fn system_drive_root() -> (r: String)
    ensures
        r@ == "/"@,
{
    "/".to_owned()
}

/// The local user that the model's command line runs as: what is configured, without the
/// white space around it; a blank name is none.
pub fn configured_ai_user(configured: Option<&str>) -> (r: Option<String>)
    ensures
        opt_view(r) == (match configured {
            Some(user) if trim(user@).len() > 0 => Some(trim(user@)),
            _ => None,
        }),
{
    match configured {
        Some(user) => {
            let name = trimmed(user);
            if name.as_str().is_empty() {
                None
            } else {
                Some(name)
            }
        },
        None => None,
    }
}

/// The interactive sessions are the active ones but for the services' session and no session at
/// all, in order.
pub proof fn interactive_sessions_are_those_with_a_user(sessions: Seq<SessionInfo>)
    ensures
        interactive_sessions(sessions) == sessions.filter(
            |s: SessionInfo| s.active && s.id != 0 && s.id != 0xffff_ffff,
        ),
    decreases sessions.len(),
{
    reveal(Seq::filter);
    if sessions.len() > 0 {
        interactive_sessions_are_those_with_a_user(sessions.drop_last());
    }
}

/// Two users at once are none: where two sessions have a user, neither is chosen; the one that
/// is chosen has one, and no other has.
pub proof fn two_users_are_none(sessions: Seq<SessionInfo>, i: int, j: int)
    requires
        0 <= i < j < sessions.len(),
        sessions[i].active && sessions[i].id != 0 && sessions[i].id != 0xffff_ffff,
        sessions[j].active && sessions[j].id != 0 && sessions[j].id != 0xffff_ffff,
    ensures
        interactive_sessions(sessions).len() >= 2,
    decreases sessions.len(),
{
    let rest = sessions.drop_last();
    if j < rest.len() {
        two_users_are_none(rest, i, j);
    } else {
        lemma_one_user(rest, i);
    }
}

proof fn lemma_one_user(sessions: Seq<SessionInfo>, i: int)
    requires
        0 <= i < sessions.len(),
        sessions[i].active && sessions[i].id != 0 && sessions[i].id != 0xffff_ffff,
    ensures
        interactive_sessions(sessions).len() >= 1,
    decreases sessions.len(),
{
    if i < sessions.len() - 1 {
        lemma_one_user(sessions.drop_last(), i);
    }
}

/// The drive of the system is that of its directory, or the usual one; a user is configured where
/// one is named.
pub proof fn drive_and_user_are_as_configured(
    root: Option<&str>,
    configured: Option<&str>,
    drive: String,
    user: Option<String>,
)
    requires
        call_ensures(windows_drive_root, (root,), drive),
        call_ensures(configured_ai_user, (configured,), user),
    ensures
        root is None ==> drive@ == "C:\\"@,
        root is Some && drive_root_of(root->0@) is Some ==> drive@ == drive_root_of(root->0@)->0,
        root is Some && drive_root_of(root->0@) is None ==> drive@ == "C:\\"@,
        configured is None ==> user is None,
        configured is Some && trim(configured->0@).len() == 0 ==> user is None,
        configured is Some && trim(configured->0@).len() > 0 ==> user is Some && user->0@ == trim(
            configured->0@,
        ),
{
}

} // verus!
