//! The portable service: which names, paths and settings it runs under.

use crate::paths::{
    component_views, components, comps_have_parent, file_name, has_parent, last_name,
    parse_components, render, rendered,
};
use crate::text::{
    after_prefix, ascii_hexdigit, ascii_lowercase, chars_of, eq_ignore_ascii_case,
    is_ascii_hexdigit, opt_view, same, same_ignoring_ascii_case, strip_text_prefix,
    what_follows_a_prefix,
};
use vstd::prelude::*;
use vstd::string::*;

verus! {

/// What the name of a portable service's pipe starts with.
pub const PIPE_PREFIX: &'static str = "\\\\.\\pipe\\EirSvcPortable-";

/// Whether a text is a random number of the length that pipe names carry.
pub open spec fn is_nonce(s: Seq<char>) -> bool {
    s.len() == 32 && forall|i: int| 0 <= i < s.len() ==> ascii_hexdigit(#[trigger] s[i])
}

/// Whether a text is the name of a portable service's pipe.
pub open spec fn portable_pipe_name(value: Seq<char>) -> bool {
    match after_prefix(value, PIPE_PREFIX@) {
        Some(nonce) => is_nonce(nonce),
        None => false,
    }
}

/// The name of a portable service's pipe, if the text is one.
pub fn validated_portable_pipe_name(value: &str) -> (r: Option<String>)
    ensures
        opt_view(r) == (if portable_pipe_name(value@) {
            Some(value@)
        } else {
            None
        }),
{
    let nonce = match strip_text_prefix(value, PIPE_PREFIX) {
        Some(rest) => rest,
        None => return None,
    };
    let v = chars_of(nonce.as_str());
    if v.len() != 32 {
        return None;
    }
    let mut i: usize = 0;
    while i < v.len()
        invariant
            i <= v@.len(),
            v@ == nonce@,
            v@.len() == 32,
            after_prefix(value@, PIPE_PREFIX@) == Some(nonce@),
            forall|k: int| 0 <= k < i ==> ascii_hexdigit(#[trigger] v@[k]),
        decreases v@.len() - i,
    {
        if !is_ascii_hexdigit(v[i]) {
            assert(!ascii_hexdigit(nonce@[i as int]));
            return None;
        }
        i += 1;
    }
    Some(value.to_owned())
}

/// Whether two resolved paths lead to something in the same directory, by the components of
/// that directory in any ASCII case.
pub open spec fn same_directory(a: Seq<char>, b: Seq<char>) -> bool {
    &&& has_parent(components(a))
    &&& has_parent(components(b))
    &&& same_ignoring_ascii_case(
        rendered(components(a).drop_last()),
        rendered(components(b).drop_last()),
    )
}

fn directory_of(path: &str) -> (r: Option<String>)
    ensures
        opt_view(r) == (if has_parent(components(path@)) {
            Some(rendered(components(path@).drop_last()))
        } else {
            None
        }),
{
    let mut comps = parse_components(path);
    if !comps_have_parent(&comps) {
        return None;
    }
    let ghost all = comps@;
    let _ = comps.pop();
    assert(component_views(comps@) =~= component_views(all).drop_last());
    Some(render(&comps))
}

/// The file whose presence keeps the portable service running, if it is the one: it has its
/// name, and once both are resolved it stands beside the service.
pub fn validated_portable_sentinel_at(
    sentinel: &str,
    resolved: Option<&str>,
    executable: Option<&str>,
) -> (r: Option<String>)
    ensures
        opt_view(r) == (if file_name(components(sentinel@)) == Some("eir-portable.running"@)
            && resolved is Some && executable is Some && same_directory(
            resolved->0@,
            executable->0@,
        ) {
            Some(resolved->0@)
        } else {
            None
        }),
{
    let comps = parse_components(sentinel);
    let named = match last_name(&comps) {
        Some(name) => same(name, "eir-portable.running"),
        None => false,
    };
    if !named {
        return None;
    }
    match (resolved, executable) {
        (Some(file), Some(exe)) => match (directory_of(file), directory_of(exe)) {
            (Some(a), Some(b)) => {
                if eq_ignore_ascii_case(a.as_str(), b.as_str()) {
                    Some(file.to_owned())
                } else {
                    None
                }
            },
            _ => None,
        },
        _ => None,
    }
}

/// The directory that the portable service keeps its state in, if it is the one: once both
/// are resolved it is the expected directory, and it is a directory.
pub fn validated_portable_state_root_at(
    resolved: Option<&str>,
    expected: Option<&str>,
    is_dir: bool,
) -> (r: Option<String>)
    ensures
        opt_view(r) == (if is_dir && resolved is Some && expected is Some
            && same_ignoring_ascii_case(resolved->0@, expected->0@) {
            Some(resolved->0@)
        } else {
            None
        }),
{
    match (resolved, expected) {
        (Some(path), Some(wanted)) => {
            if is_dir && eq_ignore_ascii_case(path, wanted) {
                Some(path.to_owned())
            } else {
                None
            }
        },
        _ => None,
    }
}

/// Whether new settings restart the service: a portable one is left to its user.
pub fn should_restart_service_after_settings(needs_restart: bool, portable_mode: bool) -> (r: bool)
    ensures
        r == (needs_restart && !portable_mode),
{
    needs_restart && !portable_mode
}

/// The name of a portable service's pipe is the prefix and thirty-two hexadecimal digits, and
/// nothing else is one.
pub proof fn pipe_name_is_prefix_and_nonce(nonce: Seq<char>, value: Seq<char>)
    ensures
        portable_pipe_name(PIPE_PREFIX@ + nonce) <==> nonce.len() == 32 && forall|i: int|
            0 <= i < nonce.len() ==> ('0' <= (#[trigger] nonce[i]) <= '9' || 'a' <= nonce[i]
                <= 'f' || 'A' <= nonce[i] <= 'F'),
        portable_pipe_name(value) ==> PIPE_PREFIX@.is_prefix_of(value) && value.len()
            == PIPE_PREFIX@.len() + 32,
{
    what_follows_a_prefix(PIPE_PREFIX@, nonce, value);
    if portable_pipe_name(PIPE_PREFIX@ + nonce) {
        assert forall|i: int| 0 <= i < nonce.len() implies ('0' <= (#[trigger] nonce[i]) <= '9'
            || 'a' <= nonce[i] <= 'f' || 'A' <= nonce[i] <= 'F') by {
            assert(ascii_hexdigit(nonce[i]));
        }
    }
    if nonce.len() == 32 && forall|i: int|
        0 <= i < nonce.len() ==> ('0' <= (#[trigger] nonce[i]) <= '9' || 'a' <= nonce[i] <= 'f'
            || 'A' <= nonce[i] <= 'F') {
        assert forall|i: int| 0 <= i < nonce.len() implies ascii_hexdigit(#[trigger] nonce[i]) by {
            let c = nonce[i];
        }
    }
}

/// Two paths are in one directory exactly where each has one and the two are written alike, in
/// any ASCII case.
pub proof fn one_directory_is_written_alike(a: Seq<char>, b: Seq<char>)
    ensures
        same_directory(a, b) ==> same_directory(b, a),
        same_directory(a, b) ==> has_parent(components(a)) && has_parent(components(b)),
        has_parent(components(a)) && components(a).drop_last() == components(b).drop_last()
            && has_parent(components(b)) ==> same_directory(a, b),
        same_directory(a, b) ==> ascii_lowercase(rendered(components(a).drop_last()))
            == ascii_lowercase(rendered(components(b).drop_last())),
{
}

/// A file says that the portable program runs where it has the name for that and lies beside the
/// program; a directory of state is taken where it is one and is the expected one.
pub proof fn portable_files_are_taken_where_they_belong(
    sentinel: &str,
    resolved: Option<&str>,
    executable: Option<&str>,
    expected: Option<&str>,
    is_dir: bool,
    a: Option<String>,
    b: Option<String>,
)
    requires
        call_ensures(validated_portable_sentinel_at, (sentinel, resolved, executable), a),
        call_ensures(validated_portable_state_root_at, (resolved, expected, is_dir), b),
    ensures
        a is Some ==> file_name(components(sentinel@)) == Some("eir-portable.running"@)
            && same_directory(resolved->0@, executable->0@) && a->0@ == resolved->0@,
        resolved is None || executable is None ==> a is None,
        resolved is Some && executable is Some && same_directory(resolved->0@, executable->0@)
            && file_name(components(sentinel@)) == Some("eir-portable.running"@) ==> a is Some,
        b is Some <==> is_dir && resolved is Some && expected is Some && same_ignoring_ascii_case(
            resolved->0@,
            expected->0@,
        ),
        b is Some ==> b->0@ == resolved->0@,
{
}

/// A pipe's name is taken as it is, where it is a valid one; and the service restarts after new
/// settings only where they need it and it is no portable one.
pub proof fn pipe_name_and_restart_go_by_what_is_asked(
    value: &str,
    needs_restart: bool,
    portable: bool,
    a: Option<String>,
    b: bool,
)
    requires
        call_ensures(validated_portable_pipe_name, (value,), a),
        call_ensures(should_restart_service_after_settings, (needs_restart, portable), b),
    ensures
        a is Some <==> portable_pipe_name(value@),
        a is Some ==> a->0@ == value@,
        b <==> needs_restart && !portable,
{
}

} // verus!
