//! Durable user preferences for specific fix actions: to ignore one, or to approve it
//! always.
//!
//! They are kept under the action's identity, so parameters that a model writes anew
//! cannot defeat them. An unknown preference counts as none.

use crate::clock::{parse_rfc3339, rfc3339_seconds};
use crate::text::{
    char_cap, head, same, trim, trimmed, trimmed_text_lies_between_white_space,
};
use vstd::prelude::*;
use vstd::string::*;

verus! {

/// Hard cap so that a misbehaving client cannot grow the preferences without bound.
pub const MAX_ACTION_PREFERENCES: usize = 256;

/// Characters kept of a summary.
pub const MAX_SUMMARY_CHARS: usize = 500;

/// Characters kept of a target.
pub const MAX_TARGET_CHARS: usize = 500;

/// Characters kept of a key.
pub const MAX_KEY_CHARS: usize = 500;

/// Closed set of preferences that a user may attach to an action.
#[derive(Debug, Clone, Copy, PartialEq, Eq, Structural)]
pub enum Preference {
    /// Do not queue this action for approval again.
    Ignore,
    /// Treat a future need for approval of this action as approval.
    AlwaysApprove,
}

impl Preference {
    /// The token that a preference is stored as.
    pub open spec fn token(self) -> Seq<char> {
        match self {
            Preference::Ignore => "ignore"@,
            Preference::AlwaysApprove => "always_approve"@,
        }
    }

    pub fn as_token(self) -> (r: &'static str)
        ensures
            r@ == self.token(),
    {
        match self {
            Preference::Ignore => "ignore",
            Preference::AlwaysApprove => "always_approve",
        }
    }

    pub fn from_token(s: &str) -> (r: Option<Self>)
        ensures
            r == preference_of(s@),
    {
        proof {
            reveal_strlit("ignore");
            reveal_strlit("always_approve");
            assert("ignore"@.len() == 6 && "always_approve"@.len() == 14);
        }
        if same(s, "ignore") {
            Some(Preference::Ignore)
        } else if same(s, "always_approve") {
            Some(Preference::AlwaysApprove)
        } else {
            None
        }
    }
}

/// The preference that a token stands for, if it stands for one.
pub open spec fn preference_of(token: Seq<char>) -> Option<Preference> {
    if token == Preference::Ignore.token() {
        Some(Preference::Ignore)
    } else if token == Preference::AlwaysApprove.token() {
        Some(Preference::AlwaysApprove)
    } else {
        None
    }
}

/// A stored preference reads back as itself.
pub proof fn token_round_trips(p: Preference)
    ensures
        preference_of(p.token()) == Some(p),
{
    reveal_strlit("ignore");
    reveal_strlit("always_approve");
    assert("ignore"@.len() == 6 && "always_approve"@.len() == 14);
}

/// A text without its null characters and carriage returns.
pub open spec fn without_controls(s: Seq<char>) -> Seq<char>
    decreases s.len(),
{
    if s.len() == 0 {
        Seq::empty()
    } else if s.last() == '\0' || s.last() == '\r' {
        without_controls(s.drop_last())
    } else {
        without_controls(s.drop_last()).push(s.last())
    }
}

/// A text as it is stored: without null characters and carriage returns, at most `max`
/// characters of that, and no white space around what is left.
pub open spec fn sanitized(s: Seq<char>, max: int) -> Seq<char> {
    trim(head(without_controls(s), max))
}

/// A text as it is stored, of at most `max` characters.
pub fn sanitize_text(raw: &str, max: usize) -> (r: String)
    ensures
        r@ == sanitized(raw@, max as int),
{
    let mut plain = String::new();
    assert(raw@.take(0) =~= Seq::<char>::empty());
    for c in it: raw.chars()
        invariant
            it.seq() == raw@,
            plain@ == without_controls(raw@.take(it.index() as int)),
    {
        let ghost next = raw@.take(it.index() as int + 1);
        assert(next.drop_last() =~= raw@.take(it.index() as int));
        assert(next.last() == c);
        if c != '\0' && c != '\r' {
            plain.push(c);
        }
    }
    assert(raw@.take(raw@.len() as int) =~= raw@);
    let capped = char_cap(plain.as_str(), max);
    trimmed(capped.as_str())
}

/// Why a preference was not kept.
#[derive(Debug, Clone, Copy, PartialEq, Eq, Structural)]
pub enum PreferenceError {
    EmptyKey,
    LimitReached,
}

impl PreferenceError {
    /// The error in words.
    pub open spec fn text(self) -> Seq<char> {
        match self {
            PreferenceError::EmptyKey => "action preference key is empty"@,
            PreferenceError::LimitReached => "action preference limit reached (256)"@,
        }
    }

    /// The error in words.
    pub fn message(self) -> (r: &'static str)
        ensures
            r@ == self.text(),
    {
        match self {
            PreferenceError::EmptyKey => "action preference key is empty",
            PreferenceError::LimitReached => "action preference limit reached (256)",
        }
    }
}

/// The key that an action's identity is stored under.
pub open spec fn stored_key(action_key: Seq<char>) -> Seq<char> {
    sanitized(action_key, MAX_KEY_CHARS as int)
}

/// The key that an action's identity is stored under; an identity of which nothing is left
/// is refused.
pub fn validate_key(action_key: &str) -> (r: Result<String, PreferenceError>)
    ensures
        match r {
            Ok(key) => key@ == stored_key(action_key@) && key@.len() > 0,
            Err(e) => e == PreferenceError::EmptyKey && stored_key(action_key@).len() == 0,
        },
{
    let key = sanitize_text(action_key, MAX_KEY_CHARS);
    if key.as_str().is_empty() {
        Err(PreferenceError::EmptyKey)
    } else {
        Ok(key)
    }
}

/// A preference ready to be stored.
#[derive(Debug)]
pub struct PreferenceRow {
    pub action_key: String,
    pub token: &'static str,
    pub summary: String,
    pub target: String,
}

/// The row that a preference is stored as: its texts as they are stored, and the key in
/// place of an empty summary.
pub fn prepare_preference(
    action_key: &str,
    preference: Preference,
    summary: &str,
    target: &str,
) -> (r: Result<PreferenceRow, PreferenceError>)
    ensures
        match r {
            Ok(row) => {
                let key = stored_key(action_key@);
                let said = sanitized(summary@, MAX_SUMMARY_CHARS as int);
                &&& key.len() > 0
                &&& row.action_key@ == key
                &&& row.token@ == preference.token()
                &&& row.summary@ == (if said.len() == 0 {
                    key
                } else {
                    said
                })
                &&& row.target@ == sanitized(target@, MAX_TARGET_CHARS as int)
            },
            Err(e) => e == PreferenceError::EmptyKey && stored_key(action_key@).len() == 0,
        },
{
    let key = validate_key(action_key)?;
    let said = sanitize_text(summary, MAX_SUMMARY_CHARS);
    let target = sanitize_text(target, MAX_TARGET_CHARS);
    let summary = if said.as_str().is_empty() {
        key.clone()
    } else {
        said
    };
    Ok(PreferenceRow { action_key: key, token: preference.as_token(), summary, target })
}

/// Whether a prepared preference may be stored: one for a known key always, one for a new
/// key only while there is room.
pub open spec fn admitted(key_known: bool, stored: i64) -> bool {
    key_known || stored < MAX_ACTION_PREFERENCES
}

/// Whether a prepared preference may be stored: one for a known key always, one for a new
/// key only while there is room.
pub fn admit_preference(key_known: bool, stored: i64) -> (r: Result<(), PreferenceError>)
    ensures
        r == (if admitted(key_known, stored) {
            Ok(())
        } else {
            Err(PreferenceError::LimitReached)
        }),
        r == (if !key_known && stored >= MAX_ACTION_PREFERENCES {
            Err(PreferenceError::LimitReached)
        } else {
            Ok(())
        }),
{
    if !key_known && stored >= MAX_ACTION_PREFERENCES as i64 {
        Err(PreferenceError::LimitReached)
    } else {
        Ok(())
    }
}

/// What a stored token, if there is one, says of an action.
pub fn stored_preference(token: Option<&str>) -> (r: Option<Preference>)
    ensures
        r == (match token {
            Some(t) => preference_of(t@),
            None => None,
        }),
{
    match token {
        Some(t) => Preference::from_token(t),
        None => None,
    }
}

/// A preference as it stands in the store.
#[derive(Debug)]
pub struct StoredPreference {
    pub action_key: String,
    pub preference: String,
    pub summary: String,
    pub target: String,
    /// When it was stored, where that could be read.
    pub created_at: Option<String>,
}

/// A preference as the user sees it.
#[derive(Debug)]
pub struct ActionPreferenceView {
    pub action_key: String,
    pub preference: String,
    pub summary: String,
    pub target: String,
    pub created_at: i64,
}

/// The seconds of a stored date; zero where it cannot be read.
pub open spec fn stored_seconds(created_at: Option<String>) -> i64 {
    match created_at {
        Some(text) => match rfc3339_seconds(text@) {
            Some(secs) => secs,
            None => 0,
        },
        None => 0,
    }
}

/// A stored preference as the user sees it.
pub open spec fn shown(row: StoredPreference, secs: i64) -> ActionPreferenceView {
    ActionPreferenceView {
        action_key: row.action_key,
        preference: row.preference,
        summary: row.summary,
        target: row.target,
        created_at: secs,
    }
}

/// The rows with a known token, as the user sees them, in order.
pub open spec fn shown_preferences(rows: Seq<StoredPreference>) -> Seq<ActionPreferenceView>
    decreases rows.len(),
{
    if rows.len() == 0 {
        Seq::empty()
    } else {
        let before = shown_preferences(rows.drop_last());
        let row = rows.last();
        if preference_of(row.preference@) is Some {
            before.push(shown(row, stored_seconds(row.created_at)))
        } else {
            before
        }
    }
}

/// One row as the user sees it, given the seconds of its date.
pub fn show_preference(row: StoredPreference, secs: Option<i64>) -> (r: ActionPreferenceView)
    ensures
        r == shown(
            row,
            match secs {
                Some(s) => s,
                None => 0,
            },
        ),
{
    ActionPreferenceView {
        action_key: row.action_key,
        preference: row.preference,
        summary: row.summary,
        target: row.target,
        created_at: match secs {
            Some(s) => s,
            None => 0,
        },
    }
}

/// Every stored preference that is known, in the order of the rows, as the user sees it.
pub fn list_preferences(rows: Vec<StoredPreference>) -> (r: Vec<ActionPreferenceView>)
    ensures
        r@ == shown_preferences(rows@),
{
    let mut out: Vec<ActionPreferenceView> = Vec::new();
    let ghost all = rows@;
    assert(all.take(0) =~= Seq::<StoredPreference>::empty());
    for row in it: rows
        invariant
            it.seq() == all,
            out@ == shown_preferences(all.take(it.index() as int)),
    {
        let ghost next = all.take(it.index() as int + 1);
        assert(next.drop_last() =~= all.take(it.index() as int));
        assert(next.last() == row);
        if Preference::from_token(row.preference.as_str()).is_some() {
            let secs = match &row.created_at {
                Some(text) => parse_rfc3339(text.as_str()),
                None => None,
            };
            out.push(show_preference(row, secs));
        }
    }
    assert(all.take(all.len() as int) =~= all);
    out
}

// ── What is kept ──────────────────────────────────────────────────────────────

/// A text that is stored holds no null character and no carriage return, is within its cap, and
/// otherwise keeps its characters in order; one without any of these and white space around it
/// that fits stays as it is.
pub proof fn stored_text_is_plain(s: Seq<char>, max: int)
    requires
        max > 0,
    ensures
        without_controls(s) == s.filter(|c: char| c != '\0' && c != '\r'),
        sanitized(s, max).len() <= max,
        forall|i: int|
            0 <= i < sanitized(s, max).len() ==> #[trigger] sanitized(s, max)[i] != '\0'
                && sanitized(s, max)[i] != '\r',
        s.len() <= max && trim(s) == s && (forall|i: int|
            0 <= i < s.len() ==> #[trigger] s[i] != '\0' && s[i] != '\r') ==> sanitized(s, max)
            == s,
{
    lemma_without_controls(s);
    let kept = without_controls(s);
    let (i, j) = trimmed_text_lies_between_white_space(head(kept, max));
    assert forall|k: int| 0 <= k < sanitized(s, max).len() implies #[trigger] sanitized(s, max)[k]
        != '\0' && sanitized(s, max)[k] != '\r' by {
        assert(sanitized(s, max)[k] == kept[i + k]);
    }
    if forall|i: int| 0 <= i < s.len() ==> #[trigger] s[i] != '\0' && s[i] != '\r' {
        lemma_plain_is_kept(s);
    }
}

proof fn lemma_without_controls(s: Seq<char>)
    ensures
        without_controls(s) == s.filter(|c: char| c != '\0' && c != '\r'),
        without_controls(s).len() <= s.len(),
        forall|i: int|
            0 <= i < without_controls(s).len() ==> #[trigger] without_controls(s)[i] != '\0'
                && without_controls(s)[i] != '\r',
    decreases s.len(),
{
    reveal(Seq::filter);
    if s.len() > 0 {
        lemma_without_controls(s.drop_last());
    }
}

proof fn lemma_plain_is_kept(s: Seq<char>)
    requires
        forall|i: int| 0 <= i < s.len() ==> #[trigger] s[i] != '\0' && s[i] != '\r',
    ensures
        without_controls(s) == s,
    decreases s.len(),
{
    if s.len() > 0 {
        let rest = s.drop_last();
        assert forall|i: int| 0 <= i < rest.len() implies #[trigger] rest[i] != '\0' && rest[i]
            != '\r' by {
            assert(s[i] == rest[i]);
        }
        lemma_plain_is_kept(rest);
        assert(s[s.len() - 1] == s.last());
        assert(rest.push(s.last()) =~= s);
    }
}

/// The stored words for the two preferences, and no other word, stand for them.
pub proof fn only_the_two_words_are_preferences(token: Seq<char>)
    ensures
        preference_of("ignore"@) == Some(Preference::Ignore),
        preference_of("always_approve"@) == Some(Preference::AlwaysApprove),
        token != "ignore"@ && token != "always_approve"@ ==> preference_of(token) is None,
{
    reveal_strlit("ignore");
    reveal_strlit("always_approve");
    assert("ignore"@.len() == 6 && "always_approve"@.len() == 14);
}

/// The user sees every stored preference that is known, each as it is stored, in order, and no
/// other.
pub proof fn known_preferences_are_shown(rows: Seq<StoredPreference>, i: int)
    ensures
        ({
            let known = rows.filter(
                |r: StoredPreference|
                    r.preference@ == "ignore"@ || r.preference@ == "always_approve"@,
            );
            let all = shown_preferences(rows);
            &&& all.len() == known.len()
            &&& 0 <= i < known.len() ==> all[i].action_key == known[i].action_key
                && all[i].preference == known[i].preference && all[i].summary == known[i].summary
                && all[i].target == known[i].target
            &&& 0 <= i < known.len() && known[i].created_at is None ==> all[i].created_at == 0
        }),
    decreases rows.len(),
{
    reveal(Seq::filter);
    only_the_two_words_are_preferences(Seq::empty());
    if rows.len() > 0 {
        only_the_two_words_are_preferences(rows.last().preference@);
        known_preferences_are_shown(rows.drop_last(), i);
    }
}

/// A preference for a known key is always kept, one for a new key while fewer than 256 are
/// stored.
pub proof fn preferences_are_kept_while_there_is_room(key_known: bool, stored: i64)
    ensures
        key_known ==> admitted(key_known, stored),
        !key_known ==> (admitted(key_known, stored) <==> stored < 256),
{
}

/// A preference is stored under its key, with its own token and its words, and not at all without
/// a key; a summary that says nothing is the key.
pub proof fn preference_is_stored_under_its_key(
    action_key: &str,
    preference: Preference,
    summary: &str,
    target: &str,
    r: Result<PreferenceRow, PreferenceError>,
)
    requires
        call_ensures(prepare_preference, (action_key, preference, summary, target), r),
    ensures
        r is Err <==> stored_key(action_key@).len() == 0,
        r matches Ok(row) ==> row.action_key@ == stored_key(action_key@) && row.token@
            == preference.token() && row.target@ == sanitized(target@, 500) && (sanitized(
            summary@,
            500,
        ).len() > 0 ==> row.summary@ == sanitized(summary@, 500)) && (sanitized(summary@, 500).len()
            == 0 ==> row.summary@ == stored_key(action_key@)),
{
}

} // verus!
