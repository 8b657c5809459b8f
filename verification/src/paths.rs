//! Windows paths as sequences of components, read from their text alone.

use crate::text::{
    ascii_letter, chars_of, eq_ignore_ascii_case, is_ascii_letter, join, joined, opt_view, same,
    same_ignoring_ascii_case, split_by, split_on, string_range, views,
};
use vstd::prelude::*;
use vstd::string::*;

verus! {

/// The two path separators.
pub open spec fn separator(c: char) -> bool {
    c == '\\' || c == '/'
}

/// The separators of a path: an extended-length path knows the back slash alone.
pub open spec fn separates(c: char, verbatim: bool) -> bool {
    c == '\\' || (c == '/' && !verbatim)
}

/// A path with its separators as back slashes.
pub open spec fn back_slashed(s: Seq<char>) -> Seq<char> {
    s.map_values(
        |c: char|
            if c == '/' {
                '\\'
            } else {
                c
            },
    )
}

pub fn is_separator(c: char) -> (r: bool)
    ensures
        r == separator(c),
{
    c == '\\' || c == '/'
}

fn is_back_slash(c: char) -> (r: bool)
    ensures
        r == separates(c, true),
{
    c == '\\'
}

fn is_either_slash(c: char) -> (r: bool)
    ensures
        r == separates(c, false),
{
    c == '\\' || c == '/'
}

// ── Prefixes ──────────────────────────────────────────────────────────────────

/// What stands before the root of a path. A drive letter is kept as a capital.
#[derive(Debug, Clone, Copy, PartialEq, Eq, Structural)]
pub enum PrefixKind {
    /// `C:`
    Disk(char),
    /// `\\?\C:`
    VerbatimDisk(char),
    /// `\\?\UNC\server\share`
    VerbatimUnc,
    /// `\\?\name`
    Verbatim,
    /// `\\.\device`
    DeviceNs,
    /// `\\server\share`
    Unc,
}

impl PrefixKind {
    /// Whether the path is an extended-length one.
    pub open spec fn verbatim(self) -> bool {
        self is VerbatimDisk || self is VerbatimUnc || self is Verbatim
    }

    fn is_verbatim(self) -> (r: bool)
        ensures
            r == self.verbatim(),
    {
        matches!(self, PrefixKind::VerbatimDisk(_) | PrefixKind::VerbatimUnc | PrefixKind::Verbatim)
    }

    /// Whether the prefix names a drive.
    pub open spec fn drive(self) -> bool {
        self is Disk || self is VerbatimDisk
    }

    /// Whether the prefix names a drive.
    pub fn is_drive(self) -> (r: bool)
        ensures
            r == self.drive(),
    {
        matches!(self, PrefixKind::Disk(_) | PrefixKind::VerbatimDisk(_))
    }
}

/// A small ASCII letter as its capital.
pub open spec fn ascii_upper(c: char) -> char {
    if 'a' <= c && c <= 'z' {
        ((c as u8) - 32) as u8 as char
    } else {
        c
    }
}

fn upper_ascii_char(c: char) -> (r: char)
    ensures
        r == ascii_upper(c),
{
    if 'a' <= c && c <= 'z' {
        let code: u8 = c as u8;
        (code - 32) as char
    } else {
        c
    }
}

/// Whether a text starts with a letter and a colon.
pub open spec fn starts_with_drive(s: Seq<char>) -> bool {
    s.len() >= 2 && ascii_letter(s[0]) && s[1] == ':'
}

/// Whether a text starts with `lit` once its separators are back slashes.
pub open spec fn starts_slashed(s: Seq<char>, lit: Seq<char>) -> bool {
    lit.len() <= s.len() && back_slashed(s.take(lit.len() as int)) == lit
}

/// The position of the first separator, or the end.
pub open spec fn first_separator(s: Seq<char>, verbatim: bool) -> int
    decreases s.len(),
{
    if s.len() == 0 || separates(s[0], verbatim) {
        0
    } else {
        1 + first_separator(s.skip(1), verbatim)
    }
}

/// What follows the separator at position `k`.
pub open spec fn beyond(s: Seq<char>, k: int) -> Seq<char> {
    if k < s.len() {
        s.skip(k + 1)
    } else {
        Seq::empty()
    }
}

/// The prefix that a path starts with, and how many characters it takes.
pub open spec fn path_prefix(s: Seq<char>) -> Option<(PrefixKind, int)> {
    if starts_slashed(s, "\\\\"@) {
        if "\\\\?\\"@.is_prefix_of(s) {
            let rest = s.skip(4);
            if starts_slashed(rest, "UNC\\"@) {
                let target = s.skip(8);
                let server = first_separator(target, true);
                let share = first_separator(beyond(target, server), true);
                Some(
                    (
                        PrefixKind::VerbatimUnc,
                        8 + server + if share > 0 {
                            1 + share
                        } else {
                            0
                        },
                    ),
                )
            } else if starts_with_drive(rest) && (rest.len() == 2 || separator(rest[2])) {
                Some((PrefixKind::VerbatimDisk(ascii_upper(rest[0])), 6))
            } else {
                Some((PrefixKind::Verbatim, 4 + first_separator(rest, true)))
            }
        } else if starts_slashed(s, "\\\\.\\"@) {
            Some((PrefixKind::DeviceNs, 4 + first_separator(s.skip(4), false)))
        } else {
            let target = s.skip(2);
            let server = first_separator(target, false);
            let share = first_separator(beyond(target, server), false);
            if server > 0 && share > 0 {
                Some((PrefixKind::Unc, 2 + server + 1 + share))
            } else {
                None
            }
        }
    } else if starts_with_drive(s) {
        Some((PrefixKind::Disk(ascii_upper(s[0])), 2))
    } else {
        None
    }
}

/// Whether `v[from..]` starts with `lit` once its separators are back slashes.
fn slashed_at(v: &Vec<char>, from: usize, lit: &str) -> (r: bool)
    requires
        from <= v@.len(),
    ensures
        r == starts_slashed(v@.skip(from as int), lit@),
{
    let l = chars_of(lit);
    let len: usize = v.len();
    let ghost s = v@.skip(from as int);
    if l.len() > len - from {
        return false;
    }
    let ghost start = back_slashed(s.take(lit@.len() as int));
    let mut i: usize = 0;
    while i < l.len()
        invariant
            i <= l@.len(),
            l@ == lit@,
            len == v@.len(),
            from + l@.len() <= len,
            s == v@.skip(from as int),
            start == back_slashed(s.take(lit@.len() as int)),
            forall|k: int| 0 <= k < i ==> start[k] == lit@[k],
        decreases l@.len() - i,
    {
        let c: char = v[from + i];
        let c: char = if c == '/' {
            '\\'
        } else {
            c
        };
        assert(start[i as int] == c);
        if c != l[i] {
            return false;
        }
        i += 1;
    }
    assert(start =~= lit@);
    true
}

/// How far the first separator of `v[from..]` is from `from`.
fn separator_at(v: &Vec<char>, from: usize, verbatim: bool) -> (k: usize)
    requires
        from <= v@.len(),
    ensures
        k == first_separator(v@.skip(from as int), verbatim),
        from + k <= v@.len(),
{
    let len: usize = v.len();
    let mut k: usize = 0;
    while from + k < len && !(v[from + k] == '\\' || (v[from + k] == '/' && !verbatim))
        invariant
            len == v@.len(),
            from + k <= len,
            first_separator(v@.skip(from as int), verbatim) == k + first_separator(
                v@.skip(from + k),
                verbatim,
            ),
        ensures
            from + k <= len,
            first_separator(v@.skip(from as int), verbatim) == k + first_separator(
                v@.skip(from + k),
                verbatim,
            ),
            from + k < len ==> separates(v@[from + k], verbatim),
        decreases len - from - k,
    {
        assert(v@.skip(from + k).skip(1) =~= v@.skip(from + k + 1));
        k += 1;
    }
    k
}

pub proof fn lemma_first_separator_bounds(s: Seq<char>, verbatim: bool)
    ensures
        0 <= first_separator(s, verbatim) <= s.len(),
    decreases s.len(),
{
    if s.len() > 0 && !separates(s[0], verbatim) {
        lemma_first_separator_bounds(s.skip(1), verbatim);
    }
}

/// The prefix that a path starts with, and how many characters it takes.
pub fn parse_prefix(v: &Vec<char>) -> (r: Option<(PrefixKind, usize)>)
    ensures
        match r {
            Some((kind, len)) => path_prefix(v@) == Some((kind, len as int)) && len <= v@.len(),
            None => path_prefix(v@) is None,
        },
{
    let len: usize = v.len();
    let ghost s = v@;
    proof {
        reveal_strlit("\\\\");
        reveal_strlit("\\\\?\\");
        reveal_strlit("\\\\.\\");
        reveal_strlit("UNC\\");
        assert(s.skip(0) =~= s);
    }
    if slashed_at(v, 0, "\\\\") {
        let exact = len >= 4 && v[0] == '\\' && v[1] == '\\' && v[2] == '?' && v[3] == '\\';
        assert(exact == "\\\\?\\"@.is_prefix_of(s)) by {
            if exact {
                assert("\\\\?\\"@ =~= s.take(4));
            } else if "\\\\?\\"@.is_prefix_of(s) {
                assert(s.take(4) == "\\\\?\\"@);
                assert(s[0] == s.take(4)[0] && s[1] == s.take(4)[1] && s[2] == s.take(4)[2] && s[3]
                    == s.take(4)[3]);
            }
        }
        if exact {
            if slashed_at(v, 4, "UNC\\") {
                let server: usize = separator_at(v, 8, true);
                assert(s.skip(4).skip(4) =~= s.skip(8));
                let after: usize = 8 + server;
                if after < len {
                    assert(beyond(s.skip(8), server as int) =~= s.skip(after + 1));
                    let share: usize = separator_at(v, after + 1, true);
                    if share > 0 {
                        return Some((PrefixKind::VerbatimUnc, after + 1 + share));
                    }
                } else {
                    assert(first_separator(Seq::<char>::empty(), true) == 0);
                }
                return Some((PrefixKind::VerbatimUnc, after));
            }
            if len >= 6 && is_ascii_letter(v[4]) && v[5] == ':' && (len == 6 || is_separator(
                v[6],
            )) {
                return Some((PrefixKind::VerbatimDisk(upper_ascii_char(v[4])), 6));
            }
            let name: usize = separator_at(v, 4, true);
            return Some((PrefixKind::Verbatim, 4 + name));
        }
        if slashed_at(v, 0, "\\\\.\\") {
            let name: usize = separator_at(v, 4, false);
            return Some((PrefixKind::DeviceNs, 4 + name));
        }
        let server: usize = separator_at(v, 2, false);
        let after: usize = 2 + server;
        if after < len {
            assert(beyond(s.skip(2), server as int) =~= s.skip(after + 1));
            let share: usize = separator_at(v, after + 1, false);
            if server > 0 && share > 0 {
                return Some((PrefixKind::Unc, after + 1 + share));
            }
        } else {
            assert(first_separator(Seq::<char>::empty(), false) == 0);
        }
        return None;
    }
    if len >= 2 && is_ascii_letter(v[0]) && v[1] == ':' {
        return Some((PrefixKind::Disk(upper_ascii_char(v[0])), 2));
    }
    None
}

// ── Components ────────────────────────────────────────────────────────────────

/// One component of a path.
#[derive(Debug)]
pub enum Component {
    Prefix(PrefixKind, String),
    RootDir,
    CurDir,
    ParentDir,
    Normal(String),
}

/// A component with its text as characters.
pub enum ComponentModel {
    Prefix(PrefixKind, Seq<char>),
    RootDir,
    CurDir,
    ParentDir,
    Normal(Seq<char>),
}

impl View for Component {
    type V = ComponentModel;

    open spec fn view(&self) -> ComponentModel {
        match self {
            Component::Prefix(kind, s) => ComponentModel::Prefix(*kind, s@),
            Component::RootDir => ComponentModel::RootDir,
            Component::CurDir => ComponentModel::CurDir,
            Component::ParentDir => ComponentModel::ParentDir,
            Component::Normal(s) => ComponentModel::Normal(s@),
        }
    }
}

impl ComponentModel {
    /// The text that a component stands for.
    pub open spec fn text(self) -> Seq<char> {
        match self {
            ComponentModel::Prefix(_, s) => s,
            ComponentModel::RootDir => "\\"@,
            ComponentModel::CurDir => "."@,
            ComponentModel::ParentDir => ".."@,
            ComponentModel::Normal(s) => s,
        }
    }
}

/// The views of a sequence of components.
pub open spec fn component_views(comps: Seq<Component>) -> Seq<ComponentModel> {
    comps.map_values(|c: Component| c@)
}

/// The components that the pieces of a path come to. Empty pieces are none; a `.` is one
/// in an extended-length path only.
pub open spec fn piece_components(pieces: Seq<Seq<char>>, verbatim: bool) -> Seq<ComponentModel>
    decreases pieces.len(),
{
    if pieces.len() == 0 {
        Seq::empty()
    } else {
        let before = piece_components(pieces.drop_last(), verbatim);
        let piece = pieces.last();
        if piece.len() == 0 {
            before
        } else if piece == "."@ {
            if verbatim {
                before.push(ComponentModel::CurDir)
            } else {
                before
            }
        } else if piece == ".."@ {
            before.push(ComponentModel::ParentDir)
        } else {
            before.push(ComponentModel::Normal(piece))
        }
    }
}

/// Whether a path without a prefix starts with a `.` component.
pub open spec fn leading_dot(s: Seq<char>) -> bool {
    s.len() > 0 && s[0] == '.' && (s.len() == 1 || separator(s[1]))
}

/// The components of a path: its prefix, its root, then its names. A server share or a
/// device has a root even where none is written.
pub open spec fn components(s: Seq<char>) -> Seq<ComponentModel> {
    match path_prefix(s) {
        Some((kind, n)) => {
            let rest = s.skip(n);
            let rooted = rest.len() > 0 && separator(rest[0]);
            let implied = !(kind is Disk) && !kind.verbatim();
            let body = if rooted {
                rest.skip(1)
            } else {
                rest
            };
            let root = if rooted || implied {
                seq![ComponentModel::RootDir]
            } else {
                Seq::empty()
            };
            seq![ComponentModel::Prefix(kind, s.take(n))] + root + piece_components(
                split_on(body, |c: char| separates(c, kind.verbatim())),
                kind.verbatim(),
            )
        },
        None => {
            let head = if s.len() > 0 && separator(s[0]) {
                seq![ComponentModel::RootDir]
            } else if leading_dot(s) {
                seq![ComponentModel::CurDir]
            } else {
                Seq::empty()
            };
            let body = if head.len() > 0 {
                s.skip(1)
            } else {
                s
            };
            head + piece_components(split_on(body, |c: char| separates(c, false)), false)
        },
    }
}

proof fn lemma_component_push(comps: Seq<Component>, c: Component)
    ensures
        component_views(comps.push(c)) == component_views(comps).push(c@),
{
    assert(component_views(comps.push(c)) =~= component_views(comps).push(c@));
}

/// Add the components of a path's body to those of its head.
fn push_pieces(comps: &mut Vec<Component>, body: &str, verbatim: bool)
    ensures
        component_views(final(comps)@) == component_views(old(comps)@) + piece_components(
            split_on(body@, |c: char| separates(c, verbatim)),
            verbatim,
        ),
{
    let ghost sep = |c: char| separates(c, verbatim);
    let pieces = if verbatim {
        split_by(body, is_back_slash, Ghost(sep))
    } else {
        split_by(body, is_either_slash, Ghost(sep))
    };
    let ghost all = split_on(body@, sep);
    let ghost head = component_views(comps@);
    let mut i: usize = 0;
    assert(all.take(0) =~= Seq::<Seq<char>>::empty());
    assert(component_views(comps@) =~= head + piece_components(all.take(0), verbatim));
    while i < pieces.len()
        invariant
            i <= pieces@.len(),
            views(pieces@) == all,
            component_views(comps@) == head + piece_components(all.take(i as int), verbatim),
        decreases pieces@.len() - i,
    {
        let ghost next = all.take(i + 1);
        assert(next.drop_last() =~= all.take(i as int));
        assert(next.last() == pieces@[i as int]@);
        let piece = pieces[i].as_str();
        let ghost before = comps@;
        if piece.is_empty() {
        } else if same(piece, ".") {
            if verbatim {
                comps.push(Component::CurDir);
                proof {
                    lemma_component_push(before, Component::CurDir);
                }
            }
        } else if same(piece, "..") {
            comps.push(Component::ParentDir);
            proof {
                lemma_component_push(before, Component::ParentDir);
            }
        } else {
            let name = pieces[i].clone();
            proof {
                lemma_component_push(before, Component::Normal(name));
            }
            comps.push(Component::Normal(name));
        }
        assert(component_views(comps@) =~= head + piece_components(next, verbatim));
        i += 1;
    }
    assert(all.take(all.len() as int) =~= all);
}

/// The components of a path.
pub fn parse_components(path: &str) -> (r: Vec<Component>)
    ensures
        component_views(r@) == components(path@),
{
    let v = chars_of(path);
    let ghost s = path@;
    let len: usize = v.len();
    let mut comps: Vec<Component> = Vec::new();
    match parse_prefix(&v) {
        Some((kind, n)) => {
            let text = string_range(&v, 0, n);
            assert(text@ =~= s.take(n as int));
            comps.push(Component::Prefix(kind, text));
            let rooted = n < len && is_separator(v[n]);
            let implied = !matches!(kind, PrefixKind::Disk(_)) && !kind.is_verbatim();
            if rooted || implied {
                comps.push(Component::RootDir);
            }
            let from: usize = if rooted {
                n + 1
            } else {
                n
            };
            let body = string_range(&v, from, len);
            let ghost rest = s.skip(n as int);
            assert(body@ =~= if rooted {
                rest.skip(1)
            } else {
                rest
            });
            let ghost head = component_views(comps@);
            assert(head =~= seq![ComponentModel::Prefix(kind, s.take(n as int))] + (if rooted
                || implied {
                seq![ComponentModel::RootDir]
            } else {
                Seq::empty()
            }));
            push_pieces(&mut comps, body.as_str(), kind.is_verbatim());
        },
        None => {
            let mut from: usize = 0;
            if len > 0 && is_separator(v[0]) {
                comps.push(Component::RootDir);
                from = 1;
            } else if len > 0 && v[0] == '.' && (len == 1 || is_separator(v[1])) {
                comps.push(Component::CurDir);
                from = 1;
            }
            let body = string_range(&v, from, len);
            assert(body@ =~= if from == 1 {
                s.skip(1)
            } else {
                s
            });
            let ghost head = component_views(comps@);
            assert(head =~= if s.len() > 0 && separator(s[0]) {
                seq![ComponentModel::RootDir]
            } else if leading_dot(s) {
                seq![ComponentModel::CurDir]
            } else {
                Seq::empty()
            });
            push_pieces(&mut comps, body.as_str(), false);
        },
    }
    comps
}

// ── Questions about paths ─────────────────────────────────────────────────────

/// The name of the file that a path leads to, if it ends in a name.
pub open spec fn file_name(comps: Seq<ComponentModel>) -> Option<Seq<char>> {
    if comps.len() > 0 && comps.last() is Normal {
        Some(comps.last()->Normal_0)
    } else {
        None
    }
}

/// Whether a path starts at the root of a drive.
pub open spec fn on_a_drive(comps: Seq<ComponentModel>) -> bool {
    comps.len() >= 2 && comps[0] is Prefix && comps[0]->Prefix_0.drive() && comps[1] is RootDir
}

/// Whether two components are the same but for the case of ASCII letters.
pub open spec fn same_component(a: ComponentModel, b: ComponentModel) -> bool {
    same_ignoring_ascii_case(a.text(), b.text())
}

/// Whether a path starts with the components of another, in any ASCII case.
pub open spec fn starts_with_path(path: Seq<ComponentModel>, root: Seq<ComponentModel>) -> bool {
    root.len() <= path.len() && forall|i: int|
        0 <= i < root.len() ==> same_component(#[trigger] path[i], root[i])
}

/// The text that a component stands for.
pub fn component_text(c: &Component) -> (r: &str)
    ensures
        r@ == c@.text(),
{
    match c {
        Component::Prefix(_, s) => s.as_str(),
        Component::RootDir => "\\",
        Component::CurDir => ".",
        Component::ParentDir => "..",
        Component::Normal(s) => s.as_str(),
    }
}

/// Whether two components are the same but for the case of ASCII letters.
pub fn component_equal(left: &Component, right: &Component) -> (r: bool)
    ensures
        r == same_component(left@, right@),
{
    eq_ignore_ascii_case(component_text(left), component_text(right))
}

/// Whether a path starts with the components of another, in any ASCII case.
pub fn comps_start_with(path: &Vec<Component>, root: &Vec<Component>) -> (r: bool)
    ensures
        r == starts_with_path(component_views(path@), component_views(root@)),
{
    let ghost p = component_views(path@);
    let ghost q = component_views(root@);
    if root.len() > path.len() {
        return false;
    }
    let mut i: usize = 0;
    while i < root.len()
        invariant
            i <= root@.len() <= path@.len(),
            p == component_views(path@),
            q == component_views(root@),
            forall|k: int| 0 <= k < i ==> same_component(#[trigger] p[k], q[k]),
        decreases root@.len() - i,
    {
        assert(p[i as int] == path@[i as int]@ && q[i as int] == root@[i as int]@);
        if !component_equal(&path[i], &root[i]) {
            return false;
        }
        i += 1;
    }
    true
}

/// The name of the file that the components lead to, if they end in a name.
pub fn last_name(comps: &Vec<Component>) -> (r: Option<&str>)
    ensures
        match r {
            Some(name) => file_name(component_views(comps@)) == Some(name@),
            None => file_name(component_views(comps@)) is None,
        },
{
    let ghost p = component_views(comps@);
    if comps.len() == 0 {
        return None;
    }
    let last: usize = comps.len() - 1;
    assert(p.last() == comps@[last as int]@);
    match &comps[last] {
        Component::Normal(name) => Some(name.as_str()),
        _ => None,
    }
}

/// Whether the components start at the root of a drive.
pub fn starts_on_a_drive(comps: &Vec<Component>) -> (r: bool)
    ensures
        r == on_a_drive(component_views(comps@)),
{
    let ghost p = component_views(comps@);
    if comps.len() < 2 {
        return false;
    }
    assert(p[0] == comps@[0]@ && p[1] == comps@[1]@);
    let drive = match &comps[0] {
        Component::Prefix(kind, _) => kind.is_drive(),
        _ => false,
    };
    drive && matches!(&comps[1], Component::RootDir)
}

/// Path equality is that of the components, in any ASCII case.
pub proof fn path_starts_with_itself(path: Seq<ComponentModel>)
    ensures
        starts_with_path(path, path),
{
}

/// Starting with a path is transitive.
pub proof fn starting_with_is_transitive(
    a: Seq<ComponentModel>,
    b: Seq<ComponentModel>,
    c: Seq<ComponentModel>,
)
    requires
        starts_with_path(a, b),
        starts_with_path(b, c),
    ensures
        starts_with_path(a, c),
{
    assert forall|i: int| 0 <= i < c.len() implies same_component(#[trigger] a[i], c[i]) by {
        assert(same_component(a[i], b[i]));
        assert(same_component(b[i], c[i]));
    }
}

// ── Identity ──────────────────────────────────────────────────────────────────

/// The characters before the server of an extended-length prefix with a share.
pub const VERBATIM_UNC_LEN: usize = 8;

/// What a prefix is compared by: a drive by its letter, any other by its text. Either slash
/// may separate its parts, but in the names of an extended-length prefix a slash is a
/// character like any other.
pub open spec fn prefix_identity(kind: PrefixKind, text: Seq<char>) -> Seq<char> {
    match kind {
        PrefixKind::Disk(_) | PrefixKind::VerbatimDisk(_) => Seq::empty(),
        PrefixKind::Verbatim => text,
        PrefixKind::VerbatimUnc => Seq::new(
            text.len(),
            |i: int|
                if i < VERBATIM_UNC_LEN && text[i] == '/' {
                    '\\'
                } else {
                    text[i]
                },
        ),
        PrefixKind::DeviceNs | PrefixKind::Unc => back_slashed(text),
    }
}

/// What a component is compared by: a prefix by its identity, anything else as it is.
pub open spec fn component_identity(c: ComponentModel) -> ComponentModel {
    match c {
        ComponentModel::Prefix(kind, text) => ComponentModel::Prefix(
            kind,
            prefix_identity(kind, text),
        ),
        _ => c,
    }
}

/// What a path is compared by: the separators that it uses and how often do not matter.
pub open spec fn path_identity(path: Seq<char>) -> Seq<ComponentModel> {
    components(path).map_values(|c: ComponentModel| component_identity(c))
}

fn with_back_slashes(s: &str) -> (r: String)
    ensures
        r@ == back_slashed(s@),
{
    let mut r = String::new();
    assert(r@ =~= back_slashed(s@.take(0)));
    for c in it: s.chars()
        invariant
            it.seq() == s@,
            r@ == back_slashed(s@.take(it.index() as int)),
    {
        let d: char = if c == '/' {
            '\\'
        } else {
            c
        };
        r.push(d);
        assert(back_slashed(s@.take(it.index() as int + 1)) =~= back_slashed(
            s@.take(it.index() as int),
        ).push(d));
    }
    assert(s@.take(s@.len() as int) =~= s@);
    r
}

/// What a prefix is compared by.
pub fn prefix_text(kind: PrefixKind, text: &str) -> (r: String)
    ensures
        r@ == prefix_identity(kind, text@),
{
    match kind {
        PrefixKind::Disk(_) | PrefixKind::VerbatimDisk(_) => {
            let r = String::new();
            assert(r@ =~= Seq::<char>::empty());
            r
        },
        PrefixKind::Verbatim => text.to_owned(),
        PrefixKind::VerbatimUnc => {
            let v = chars_of(text);
            let end: usize = if v.len() < VERBATIM_UNC_LEN {
                v.len()
            } else {
                VERBATIM_UNC_LEN
            };
            let mut r = with_back_slashes(string_range(&v, 0, end).as_str());
            r.append(string_range(&v, end, v.len()).as_str());
            assert(r@ =~= prefix_identity(kind, text@));
            r
        },
        PrefixKind::DeviceNs | PrefixKind::Unc => with_back_slashes(text),
    }
}

fn same_identity(a: &Component, b: &Component) -> (r: bool)
    ensures
        r == (component_identity(a@) == component_identity(b@)),
{
    match (a, b) {
        (Component::Prefix(k, s), Component::Prefix(l, t)) => {
            if *k != *l {
                false
            } else {
                let x = prefix_text(*k, s.as_str());
                let y = prefix_text(*l, t.as_str());
                x == y
            }
        },
        (Component::Normal(s), Component::Normal(t)) => same(s.as_str(), t.as_str()),
        (Component::RootDir, Component::RootDir) => true,
        (Component::CurDir, Component::CurDir) => true,
        (Component::ParentDir, Component::ParentDir) => true,
        _ => false,
    }
}

/// Whether two texts name the same path.
pub fn same_path(a: &str, b: &str) -> (r: bool)
    ensures
        r == (path_identity(a@) == path_identity(b@)),
{
    let x = parse_components(a);
    let y = parse_components(b);
    let ghost p = path_identity(a@);
    let ghost q = path_identity(b@);
    assert(p.len() == x@.len() && q.len() == y@.len());
    if x.len() != y.len() {
        return false;
    }
    let mut i: usize = 0;
    while i < x.len()
        invariant
            i <= x@.len(),
            x@.len() == y@.len(),
            p.len() == x@.len(),
            q.len() == y@.len(),
            p == path_identity(a@),
            q == path_identity(b@),
            component_views(x@) == components(a@),
            component_views(y@) == components(b@),
            forall|k: int| 0 <= k < i ==> p[k] == q[k],
        decreases x@.len() - i,
    {
        assert(p[i as int] == component_identity(x@[i as int]@)) by {
            assert(component_views(x@)[i as int] == x@[i as int]@);
        }
        assert(q[i as int] == component_identity(y@[i as int]@)) by {
            assert(component_views(y@)[i as int] == y@[i as int]@);
        }
        if !same_identity(&x[i], &y[i]) {
            return false;
        }
        i += 1;
    }
    assert(p =~= q);
    true
}

// ── Putting paths together ────────────────────────────────────────────────────

/// Whether a separator goes between these components and a name after them.
pub open spec fn wants_separator(comps: Seq<ComponentModel>) -> bool {
    comps.len() > 0 && !(comps.last() is RootDir) && !(comps.last() is Prefix
        && comps.last()->Prefix_0 is Disk)
}

/// The text of a path with these components.
pub open spec fn rendered(comps: Seq<ComponentModel>) -> Seq<char>
    decreases comps.len(),
{
    if comps.len() == 0 {
        Seq::empty()
    } else {
        let before = comps.drop_last();
        let gap = if wants_separator(before) && !(comps.last() is RootDir) {
            "\\"@
        } else {
            Seq::empty()
        };
        rendered(before) + gap + comps.last().text()
    }
}

/// The text of a path with the given components.
pub fn render(comps: &Vec<Component>) -> (r: String)
    ensures
        r@ == rendered(component_views(comps@)),
{
    let ghost all = component_views(comps@);
    let mut text = String::new();
    let mut i: usize = 0;
    let mut gap = false;
    assert(all.take(0) =~= Seq::<ComponentModel>::empty());
    while i < comps.len()
        invariant
            i <= comps@.len(),
            all == component_views(comps@),
            text@ == rendered(all.take(i as int)),
            gap == wants_separator(all.take(i as int)),
        decreases comps@.len() - i,
    {
        let ghost next = all.take(i + 1);
        assert(next.drop_last() =~= all.take(i as int));
        assert(next.last() == comps@[i as int]@);
        let root = matches!(&comps[i], Component::RootDir);
        let ghost before = text@;
        if gap && !root {
            text.append("\\");
        }
        assert(text@ =~= before + (if gap && !root {
            "\\"@
        } else {
            Seq::empty()
        }));
        text.append(component_text(&comps[i]));
        gap = match &comps[i] {
            Component::RootDir => false,
            Component::Prefix(kind, _) => !matches!(*kind, PrefixKind::Disk(_)),
            _ => true,
        };
        i += 1;
    }
    assert(all.take(all.len() as int) =~= all);
    text
}

/// The components with names after them.
pub open spec fn with_names(comps: Seq<ComponentModel>, names: Seq<Seq<char>>) -> Seq<
    ComponentModel,
> {
    comps + names.map_values(|n: Seq<char>| ComponentModel::Normal(n))
}

/// The text of a path with names after it. The text of an extended-length path is put
/// together anew; any other keeps its own, with a separator where one is wanting.
pub open spec fn joined_path(base: Seq<char>, names: Seq<Seq<char>>) -> Seq<char> {
    let plain = base.len() == 0 || separator(base.last());
    match path_prefix(base) {
        Some((kind, _)) if kind.verbatim() => rendered(with_names(components(base), names)),
        Some((kind, n)) if plain || (kind is Disk && n == base.len()) => base + join(
            names,
            "\\"@,
        ),
        None if plain => base + join(names, "\\"@),
        _ => base + "\\"@ + join(names, "\\"@),
    }
}

/// The text of a path with names after it.
pub fn join_names(base: &str, names: &Vec<String>) -> (r: String)
    ensures
        r@ == joined_path(base@, views(names@)),
{
    let v = chars_of(base);
    let n: usize = v.len();
    let mut sep = n > 0 && !is_separator(v[n - 1]);
    if let Some((kind, len)) = parse_prefix(&v) {
        if kind.is_verbatim() {
            let mut comps = parse_components(base);
            let ghost start = component_views(comps@);
            let ghost all = views(names@).map_values(|n: Seq<char>| ComponentModel::Normal(n));
            let mut i: usize = 0;
            assert(component_views(comps@) =~= start + all.take(0));
            while i < names.len()
                invariant
                    i <= names@.len(),
                    all == views(names@).map_values(|n: Seq<char>| ComponentModel::Normal(n)),
                    component_views(comps@) == start + all.take(i as int),
                decreases names@.len() - i,
            {
                let name = Component::Normal(names[i].clone());
                proof {
                    lemma_component_push(comps@, name);
                }
                comps.push(name);
                assert(component_views(comps@) =~= start + all.take(i + 1));
                i += 1;
            }
            assert(all.take(all.len() as int) =~= all);
            return render(&comps);
        }
        if matches!(kind, PrefixKind::Disk(_)) && len == n {
            sep = false;
        }
    }
    let tail = joined(names, "\\");
    let mut r = base.to_owned();
    if sep {
        r.append("\\");
    }
    r.append(tail.as_str());
    r
}

/// Whether a path has a directory that it stands in.
pub open spec fn has_parent(comps: Seq<ComponentModel>) -> bool {
    comps.len() > 0 && (comps.last() is Normal || comps.last() is CurDir
        || comps.last() is ParentDir)
}

/// Whether the components lead to something in a directory.
pub fn comps_have_parent(comps: &Vec<Component>) -> (r: bool)
    ensures
        r == has_parent(component_views(comps@)),
{
    if comps.len() == 0 {
        return false;
    }
    let last: usize = comps.len() - 1;
    assert(component_views(comps@).last() == comps@[last as int]@);
    matches!(&comps[last], Component::Normal(_) | Component::CurDir | Component::ParentDir)
}

/// The path of another file in the directory of a path's file.
pub fn sibling_path(path: &str, name: &str) -> (r: Option<String>)
    ensures
        opt_view(r) == (if has_parent(components(path@)) {
            Some(rendered(components(path@).drop_last().push(ComponentModel::Normal(name@))))
        } else {
            None
        }),
{
    let mut comps = parse_components(path);
    if !comps_have_parent(&comps) {
        return None;
    }
    let ghost all = comps@;
    let _ = comps.pop();
    assert(component_views(comps@) =~= component_views(all).drop_last());
    let leaf = Component::Normal(name.to_owned());
    proof {
        lemma_component_push(comps@, leaf);
    }
    comps.push(leaf);
    Some(render(&comps))
}

/// What follows the last dot of a text.
pub open spec fn after_last_dot(s: Seq<char>) -> Option<Seq<char>>
    decreases s.len(),
{
    if s.len() == 0 {
        None
    } else if s.last() == '.' {
        Some(Seq::empty())
    } else {
        match after_last_dot(s.drop_last()) {
            Some(rest) => Some(rest.push(s.last())),
            None => None,
        }
    }
}

/// What follows the last dot of a name, if something stands before the dot.
pub open spec fn extension(name: Seq<char>) -> Option<Seq<char>> {
    match after_last_dot(name) {
        Some(rest) if name != ".."@ && rest.len() + 1 < name.len() => Some(rest),
        _ => None,
    }
}

proof fn lemma_after_last_dot(s: Seq<char>, dot: int)
    requires
        0 <= dot < s.len(),
        s[dot] == '.',
        forall|k: int| dot < k < s.len() ==> s[k] != '.',
    ensures
        after_last_dot(s) == Some(s.skip(dot + 1)),
    decreases s.len(),
{
    if dot == s.len() - 1 {
        assert(s.skip(dot + 1) =~= Seq::<char>::empty());
    } else {
        lemma_after_last_dot(s.drop_last(), dot);
        assert(s.drop_last().skip(dot + 1).push(s.last()) =~= s.skip(dot + 1));
    }
}

proof fn lemma_no_dot(s: Seq<char>)
    requires
        forall|k: int| 0 <= k < s.len() ==> s[k] != '.',
    ensures
        after_last_dot(s) is None,
    decreases s.len(),
{
    if s.len() > 0 {
        lemma_no_dot(s.drop_last());
    }
}

/// What follows the last dot of a name, if something stands before the dot.
pub fn extension_of(name: &str) -> (r: Option<String>)
    ensures
        opt_view(r) == extension(name@),
{
    let v = chars_of(name);
    if same(name, "..") {
        return None;
    }
    let mut i: usize = v.len();
    while i > 0
        invariant
            i <= v@.len(),
            v@ == name@,
            name@ != ".."@,
            forall|k: int| i <= k < v@.len() ==> v@[k] != '.',
        decreases i,
    {
        if v[i - 1] == '.' {
            let ext = string_range(&v, i, v.len());
            proof {
                lemma_after_last_dot(name@, i - 1);
                assert(ext@ =~= name@.skip(i as int));
            }
            if i == 1 {
                return None;
            }
            return Some(ext);
        }
        i -= 1;
    }
    proof {
        lemma_no_dot(name@);
    }
    None
}

// ── What paths come to ────────────────────────────────────────────────────────

/// Both slashes separate the names of a path, but in an extended-length path only the back slash
/// does; nothing else is a separator.
pub proof fn slashes_separate(c: char)
    ensures
        separator(c) <==> c == '\\' || c == '/',
        separates('\\', true) && separates('\\', false) && separates('/', false),
        !separates('/', true),
        c != '\\' && c != '/' ==> !separates(c, true) && !separates(c, false),
{
}

/// The first separator stands behind what holds none.
pub proof fn first_separator_is_found(name: Seq<char>, c: char, rest: Seq<char>, verbatim: bool)
    requires
        forall|i: int| 0 <= i < name.len() ==> !separates(#[trigger] name[i], verbatim),
        separates(c, verbatim),
    ensures
        first_separator(name + seq![c] + rest, verbatim) == name.len(),
        first_separator(name, verbatim) == name.len(),
        beyond(name + seq![c] + rest, name.len() as int) == rest,
    decreases name.len(),
{
    let all = name + seq![c] + rest;
    assert(all.skip(name.len() as int + 1) =~= rest);
    if name.len() > 0 {
        let tail = name.skip(1);
        assert(all[0] == name[0]);
        assert(!separates(name[0], verbatim));
        assert forall|i: int| 0 <= i < tail.len() implies !separates(
            #[trigger] tail[i],
            verbatim,
        ) by {
            assert(tail[i] == name[i + 1]);
        }
        first_separator_is_found(tail, c, rest, verbatim);
        assert(all.skip(1) =~= tail + seq![c] + rest);
    } else {
        assert(all[0] == c);
    }
}

/// A drive is told by its letter, in either case.
pub proof fn drive_is_told_by_its_letter(c: char, rest: Seq<char>)
    requires
        'A' <= c <= 'Z',
    ensures
        path_prefix(seq![c, ':'] + rest) == Some((PrefixKind::Disk(c), 2int)),
        path_prefix(seq![((c as u8) + 32) as char, ':'] + rest) == Some((PrefixKind::Disk(c), 2int)),
{
    let small = ((c as u8) + 32) as char;
    let s = seq![c, ':'] + rest;
    let t = seq![small, ':'] + rest;
    reveal_strlit("\\\\");
    assert(back_slashed(s.take(2))[0] == c);
    assert(back_slashed(t.take(2))[0] == small);
    assert("\\\\"@[0] == '\\');
    assert(s[0] == c && s[1] == ':' && t[0] == small && t[1] == ':');
}

/// A path that starts with neither a drive nor two separators has no prefix.
pub proof fn plain_path_has_no_prefix(s: Seq<char>)
    requires
        !(s.len() >= 2 && s[1] == ':'),
        !(s.len() >= 2 && (s[0] == '\\' || s[0] == '/') && (s[1] == '\\' || s[1] == '/')),
    ensures
        path_prefix(s) is None,
{
    reveal_strlit("\\\\");
    if s.len() >= 2 {
        assert(back_slashed(s.take(2))[0] == (if s[0] == '/' {
            '\\'
        } else {
            s[0]
        }));
        assert(back_slashed(s.take(2))[1] == (if s[1] == '/' {
            '\\'
        } else {
            s[1]
        }));
    }
}

/// A share is told by its server and its name, between separators of either kind.
pub proof fn share_is_told_by_server_and_name(
    server: Seq<char>,
    share: Seq<char>,
    rest: Seq<char>,
)
    requires
        server.len() > 0 && share.len() > 0,
        forall|i: int| 0 <= i < server.len() ==> !separates(#[trigger] server[i], false),
        forall|i: int| 0 <= i < share.len() ==> !separates(#[trigger] share[i], false),
        server[0] != '?' && server[0] != '.',
        rest.len() > 0 ==> separates(rest[0], false),
    ensures
        path_prefix(seq!['\\', '\\'] + server + seq!['\\'] + share + rest) == Some(
            (PrefixKind::Unc, (3 + server.len() + share.len()) as int),
        ),
{
    let s = seq!['\\', '\\'] + server + seq!['\\'] + share + rest;
    reveal_strlit("\\\\");
    reveal_strlit("\\\\?\\");
    reveal_strlit("\\\\.\\");
    assert(back_slashed(s.take(2)) =~= "\\\\"@);
    assert(s[2] == server[0]);
    assert(!separates(server[0], false));
    assert(!"\\\\?\\"@.is_prefix_of(s)) by {
        if "\\\\?\\"@.is_prefix_of(s) {
            assert(s.take(4)[2] == '?');
        }
    }
    assert(!starts_slashed(s, "\\\\.\\"@)) by {
        if starts_slashed(s, "\\\\.\\"@) {
            assert(back_slashed(s.take(4))[2] == s[2]);
        }
    }
    let target = s.skip(2);
    assert(target =~= server + seq!['\\'] + (share + rest));
    first_separator_is_found(server, '\\', share + rest, false);
    if rest.len() > 0 {
        assert(share + rest =~= share + seq![rest[0]] + rest.skip(1));
        first_separator_is_found(share, rest[0], rest.skip(1), false);
    } else {
        assert(share + rest =~= share);
        first_separator_is_found(share, '\\', Seq::empty(), false);
    }
}

/// An extended-length path to a drive is told by the drive's letter.
pub proof fn extended_drive_is_told_by_its_letter(c: char, rest: Seq<char>)
    requires
        'A' <= c <= 'Z',
        rest.len() > 0 ==> rest[0] == '\\',
    ensures
        path_prefix("\\\\?\\"@ + seq![c, ':'] + rest) == Some((PrefixKind::VerbatimDisk(c), 6int)),
{
    let s = "\\\\?\\"@ + seq![c, ':'] + rest;
    reveal_strlit("\\\\");
    reveal_strlit("\\\\?\\");
    reveal_strlit("UNC\\");
    assert(back_slashed(s.take(2)) =~= "\\\\"@);
    assert(s.take(4) =~= "\\\\?\\"@);
    let tail = s.skip(4);
    assert(tail =~= seq![c, ':'] + rest);
    assert(!starts_slashed(tail, "UNC\\"@)) by {
        if starts_slashed(tail, "UNC\\"@) {
            assert(back_slashed(tail.take(4))[1] == ':');
        }
    }
}

/// An extended-length path to a share is told by its server and its name, which may hold slashes.
pub proof fn extended_share_is_told_by_server_and_name(
    server: Seq<char>,
    share: Seq<char>,
    rest: Seq<char>,
)
    requires
        share.len() > 0,
        forall|i: int| 0 <= i < server.len() ==> #[trigger] server[i] != '\\',
        forall|i: int| 0 <= i < share.len() ==> #[trigger] share[i] != '\\',
        rest.len() > 0 ==> rest[0] == '\\',
    ensures
        path_prefix("\\\\?\\UNC\\"@ + server + seq!['\\'] + share + rest) == Some(
            (PrefixKind::VerbatimUnc, (9 + server.len() + share.len()) as int),
        ),
{
    let s = "\\\\?\\UNC\\"@ + server + seq!['\\'] + share + rest;
    reveal_strlit("\\\\");
    reveal_strlit("\\\\?\\");
    reveal_strlit("UNC\\");
    reveal_strlit("\\\\?\\UNC\\");
    assert(back_slashed(s.take(2)) =~= "\\\\"@);
    assert(s.take(4) =~= "\\\\?\\"@);
    let tail = s.skip(4);
    assert(back_slashed(tail.take(4)) =~= "UNC\\"@);
    let target = s.skip(8);
    assert(target =~= server + seq!['\\'] + (share + rest));
    first_separator_is_found(server, '\\', share + rest, true);
    if rest.len() > 0 {
        assert(share + rest =~= share + seq![rest[0]] + rest.skip(1));
        first_separator_is_found(share, rest[0], rest.skip(1), true);
    } else {
        assert(share + rest =~= share);
        first_separator_is_found(share, '\\', Seq::empty(), true);
    }
}

/// The pieces of a path that hold something are its components, in order: `..` leads up, `.` is
/// one in an extended-length path alone, and any other piece is a name.
pub proof fn pieces_are_names(pieces: Seq<Seq<char>>, verbatim: bool)
    ensures
        piece_components(pieces, verbatim) == pieces.filter(
            |p: Seq<char>| p.len() > 0 && (verbatim || p != "."@),
        ).map_values(
            |p: Seq<char>|
                if p == "."@ {
                    ComponentModel::CurDir
                } else if p == ".."@ {
                    ComponentModel::ParentDir
                } else {
                    ComponentModel::Normal(p)
                },
        ),
    decreases pieces.len(),
{
    reveal(Seq::filter);
    let keep = |p: Seq<char>| p.len() > 0 && (verbatim || p != "."@);
    let made = |p: Seq<char>|
        if p == "."@ {
            ComponentModel::CurDir
        } else if p == ".."@ {
            ComponentModel::ParentDir
        } else {
            ComponentModel::Normal(p)
        };
    if pieces.len() > 0 {
        let before = pieces.drop_last();
        pieces_are_names(before, verbatim);
        if keep(pieces.last()) {
            assert(pieces.filter(keep) == before.filter(keep).push(pieces.last()));
            assert(before.filter(keep).push(pieces.last()).map_values(made)
                =~= before.filter(keep).map_values(made).push(made(pieces.last())));
        }
    } else {
        assert(pieces.filter(keep).map_values(made) =~= piece_components(pieces, verbatim));
    }
}

/// The components of a path on a drive are the drive, the root where one is written, and the
/// names.
pub proof fn path_on_a_drive_has_its_names(c: char, body: Seq<char>)
    requires
        'A' <= c <= 'Z',
        body.len() > 0 ==> body[0] != '\\' && body[0] != '/',
    ensures
        components(seq![c, ':', '\\'] + body) == seq![
            ComponentModel::Prefix(PrefixKind::Disk(c), seq![c, ':']),
            ComponentModel::RootDir,
        ] + piece_components(split_on(body, |x: char| separates(x, false)), false),
        components(seq![c, ':'] + body) == seq![
            ComponentModel::Prefix(PrefixKind::Disk(c), seq![c, ':']),
        ] + piece_components(split_on(body, |x: char| separates(x, false)), false),
{
    drive_is_told_by_its_letter(c, seq!['\\'] + body);
    drive_is_told_by_its_letter(c, body);
    let s = seq![c, ':', '\\'] + body;
    let t = seq![c, ':'] + body;
    assert(s =~= seq![c, ':'] + (seq!['\\'] + body));
    assert(s.take(2) =~= seq![c, ':']);
    assert(t.take(2) =~= seq![c, ':']);
    assert(s.skip(2) =~= seq!['\\'] + body);
    assert(s.skip(2).skip(1) =~= body);
    assert(t.skip(2) =~= body);
    assert(s.skip(2)[0] == '\\');
    let sep = |x: char| separates(x, PrefixKind::Disk(c).verbatim());
    assert(sep =~= (|x: char| separates(x, false)));
    let drive = seq![ComponentModel::Prefix(PrefixKind::Disk(c), seq![c, ':'])];
    assert(drive + seq![ComponentModel::RootDir] =~= seq![
        ComponentModel::Prefix(PrefixKind::Disk(c), seq![c, ':']),
        ComponentModel::RootDir,
    ]);
    assert(drive + Seq::<ComponentModel>::empty() =~= drive);
}

/// The components of a path without a prefix are the root where it starts with a separator, the
/// directory itself where it starts with a dot of its own, and the names.
pub proof fn plain_path_has_its_names(s: Seq<char>)
    requires
        path_prefix(s) is None,
    ensures
        s.len() > 0 && (s[0] == '\\' || s[0] == '/') ==> components(s) == seq![
            ComponentModel::RootDir,
        ] + piece_components(split_on(s.skip(1), |x: char| separates(x, false)), false),
        s.len() > 0 && s[0] != '\\' && s[0] != '/' && s[0] != '.' ==> components(s)
            == piece_components(split_on(s, |x: char| separates(x, false)), false),
        s.len() > 1 && s[0] == '.' && s[1] != '\\' && s[1] != '/' ==> components(s)
            == piece_components(split_on(s, |x: char| separates(x, false)), false),
        s.len() > 1 && s[0] == '.' && (s[1] == '\\' || s[1] == '/') ==> components(s) == seq![
            ComponentModel::CurDir,
        ] + piece_components(split_on(s.skip(1), |x: char| separates(x, false)), false),
{
    let empty = Seq::<ComponentModel>::empty();
    let rest = piece_components(split_on(s, |x: char| separates(x, false)), false);
    assert(empty + rest =~= rest);
}

/// A share has a root even where none is written; an extended-length path has one only where it
/// is written.
pub proof fn shares_have_a_root(s: Seq<char>)
    ensures
        path_prefix(s) matches Some((kind, n)) ==> {
            let c = components(s);
            &&& c.len() > 0 && c[0] == ComponentModel::Prefix(kind, s.take(n))
            &&& kind is Unc || kind is DeviceNs ==> c.len() > 1 && c[1] is RootDir
            &&& 0 <= n < s.len() && separator(s[n]) ==> c.len() > 1 && c[1] is RootDir
            &&& n == s.len() && !(kind is Unc) && !(kind is DeviceNs) ==> c.len() == 1
        },
{
    if path_prefix(s) is Some {
        let (kind, n) = path_prefix(s)->0;
        let rest = s.skip(n);
        if 0 <= n < s.len() {
            assert(rest[0] == s[n]);
        }
        if n == s.len() {
            assert(rest.len() == 0);
            let pieces = split_on(rest, |c: char| separates(c, kind.verbatim()));
            assert(pieces.len() == 1 && pieces[0].len() == 0) by {
                assert(pieces =~= seq![Seq::<char>::empty()]);
            }
            assert(pieces.drop_last().len() == 0);
            assert(piece_components(pieces.drop_last(), kind.verbatim()).len() == 0);
        }
    }
}

/// The file of a path is named by its last component, where that is a name.
pub proof fn file_is_the_last_name(comps: Seq<ComponentModel>, name: Seq<char>)
    ensures
        file_name(comps.push(ComponentModel::Normal(name))) == Some(name),
        file_name(comps.push(ComponentModel::ParentDir)) is None,
        file_name(comps.push(ComponentModel::CurDir)) is None,
        file_name(comps.push(ComponentModel::RootDir)) is None,
        file_name(Seq::empty()) is None,
        has_parent(comps.push(ComponentModel::Normal(name))),
        has_parent(comps.push(ComponentModel::ParentDir)),
        has_parent(comps.push(ComponentModel::CurDir)),
        !has_parent(comps.push(ComponentModel::RootDir)),
        !has_parent(Seq::empty()),
{
}

/// A path starts at the root of a drive where its first component is a drive and its second the
/// root.
pub proof fn drive_and_root_come_first(c: char, rest: Seq<ComponentModel>, text: Seq<char>)
    ensures
        on_a_drive(
            seq![ComponentModel::Prefix(PrefixKind::Disk(c), text), ComponentModel::RootDir] + rest,
        ),
        on_a_drive(
            seq![
                ComponentModel::Prefix(PrefixKind::VerbatimDisk(c), text),
                ComponentModel::RootDir,
            ] + rest,
        ),
        !on_a_drive(
            seq![ComponentModel::Prefix(PrefixKind::Unc, text), ComponentModel::RootDir] + rest,
        ),
        !on_a_drive(
            seq![ComponentModel::Prefix(PrefixKind::DeviceNs, text), ComponentModel::RootDir]
                + rest,
        ),
        !on_a_drive(
            seq![ComponentModel::Prefix(PrefixKind::Verbatim, text), ComponentModel::RootDir]
                + rest,
        ),
        !on_a_drive(
            seq![ComponentModel::Prefix(PrefixKind::VerbatimUnc, text), ComponentModel::RootDir]
                + rest,
        ),
        !on_a_drive(seq![ComponentModel::RootDir] + rest),
        !on_a_drive(seq![ComponentModel::Prefix(PrefixKind::Disk(c), text)]),
        rest.len() > 0 && !(rest[0] is RootDir) ==> !on_a_drive(
            seq![ComponentModel::Prefix(PrefixKind::Disk(c), text)] + rest,
        ),
{
}

/// A path starts with another where each component of the other stands at its place, in any ASCII
/// case; what follows does not matter.
pub proof fn starting_with_is_component_by_component(
    root: Seq<ComponentModel>,
    rest: Seq<ComponentModel>,
    other: Seq<ComponentModel>,
    i: int,
)
    ensures
        starts_with_path(root + rest, root),
        rest.len() > 0 ==> !starts_with_path(root, root + rest),
        0 <= i < other.len() && i < root.len() && !same_ignoring_ascii_case(
            root[i].text(),
            other[i].text(),
        ) ==> !starts_with_path(root, other),
{
    let path = root + rest;
    assert forall|k: int| 0 <= k < root.len() implies same_component(#[trigger] path[k], root[k]) by {
        assert(path[k] == root[k]);
        lemma_same_as_itself(root[k].text());
    }
    if 0 <= i < other.len() && i < root.len() && starts_with_path(root, other) {
        assert(same_component(root[i], other[i]));
    }
}

proof fn lemma_same_as_itself(s: Seq<char>)
    ensures
        same_ignoring_ascii_case(s, s),
{
}

/// A drive is known by its letter alone. A share is known by its text, whichever slash separates
/// its parts; a plain extended-length prefix by its text as it stands.
pub proof fn prefixes_are_known_by_what_they_name(a: Seq<char>, b: Seq<char>, c: char)
    ensures
        prefix_identity(PrefixKind::Disk(c), a) == prefix_identity(PrefixKind::Disk(c), b),
        prefix_identity(PrefixKind::VerbatimDisk(c), a) == prefix_identity(
            PrefixKind::VerbatimDisk(c),
            b,
        ),
        prefix_identity(PrefixKind::Verbatim, a) == a,
        prefix_identity(PrefixKind::Unc, a) == prefix_identity(PrefixKind::Unc, back_slashed(a)),
        prefix_identity(PrefixKind::DeviceNs, a) == prefix_identity(
            PrefixKind::DeviceNs,
            back_slashed(a),
        ),
        (forall|i: int| 0 <= i < a.len() ==> a[i] != '/') ==> prefix_identity(PrefixKind::Unc, a)
            == a && prefix_identity(PrefixKind::DeviceNs, a) == a && prefix_identity(
            PrefixKind::VerbatimUnc,
            a,
        ) == a,
        a.len() > 8 ==> prefix_identity(PrefixKind::VerbatimUnc, a).skip(8) == a.skip(8),
{
    assert(back_slashed(back_slashed(a)) =~= back_slashed(a));
    if forall|i: int| 0 <= i < a.len() ==> a[i] != '/' {
        assert(back_slashed(a) =~= a);
        assert(prefix_identity(PrefixKind::VerbatimUnc, a) =~= a);
    }
    if a.len() > 8 {
        assert(prefix_identity(PrefixKind::VerbatimUnc, a).skip(8) =~= a.skip(8));
    }
}

/// A path is known by its components one by one: a prefix of a kind by what it names, any other
/// component as it is.
pub proof fn path_is_known_by_its_components(path: Seq<char>, i: int)
    requires
        0 <= i < components(path).len(),
    ensures
        path_identity(path).len() == components(path).len(),
        !(components(path)[i] is Prefix) ==> path_identity(path)[i] == components(path)[i],
        components(path)[i] matches ComponentModel::Prefix(kind, text) ==> path_identity(path)[i]
            == ComponentModel::Prefix(kind, prefix_identity(kind, text)),
{
}

/// A path is put together with one back slash between its names, none behind the root or behind a
/// bare drive.
pub proof fn path_is_put_together(comps: Seq<ComponentModel>, name: Seq<char>, c: char, d: Seq<char>)
    ensures
        rendered(Seq::empty()) == Seq::<char>::empty(),
        rendered(seq![ComponentModel::Normal(name)]) == name,
        rendered(comps.push(ComponentModel::Normal(d)).push(ComponentModel::Normal(name)))
            == rendered(comps.push(ComponentModel::Normal(d))) + seq!['\\'] + name,
        rendered(comps.push(ComponentModel::ParentDir).push(ComponentModel::Normal(name)))
            == rendered(comps.push(ComponentModel::ParentDir)) + seq!['\\'] + name,
        rendered(comps.push(ComponentModel::RootDir).push(ComponentModel::Normal(name)))
            == rendered(comps.push(ComponentModel::RootDir)) + name,
        rendered(
            seq![
                ComponentModel::Prefix(PrefixKind::Disk(c), d),
                ComponentModel::RootDir,
                ComponentModel::Normal(name),
            ],
        ) == d + seq!['\\'] + name,
        rendered(
            seq![ComponentModel::Prefix(PrefixKind::Disk(c), d), ComponentModel::Normal(name)],
        ) == d + name,
{
    reveal_strlit("\\");
    assert("\\"@ =~= seq!['\\']);
    reveal_with_fuel(rendered, 4);
    let empty = Seq::<ComponentModel>::empty();
    let n = ComponentModel::Normal(name);
    let drive = ComponentModel::Prefix(PrefixKind::Disk(c), d);
    assert(seq![n].drop_last() =~= empty);
    assert(rendered(seq![n]) =~= name);
    let a = comps.push(ComponentModel::Normal(d));
    assert(a.push(n).drop_last() =~= a);
    let b = comps.push(ComponentModel::ParentDir);
    assert(b.push(n).drop_last() =~= b);
    let r = comps.push(ComponentModel::RootDir);
    assert(r.push(n).drop_last() =~= r);
    assert(rendered(r.push(n)) =~= rendered(r) + name);
    assert(seq![drive].drop_last() =~= empty);
    assert(rendered(seq![drive]) =~= d);
    assert(seq![drive, ComponentModel::RootDir].drop_last() =~= seq![drive]);
    assert(rendered(seq![drive, ComponentModel::RootDir]) =~= d + seq!['\\']);
    assert(seq![drive, ComponentModel::RootDir, n].drop_last() =~= seq![
        drive,
        ComponentModel::RootDir,
    ]);
    assert(rendered(seq![drive, ComponentModel::RootDir, n]) =~= d + seq!['\\'] + name);
    assert(seq![drive, n].drop_last() =~= seq![drive]);
    assert(rendered(seq![drive, n]) =~= d + name);
}

/// A name that is joined to a path comes behind it, after a back slash where the path does not end
/// in a separator; a bare drive takes none.
pub proof fn joined_name_comes_behind(base: Seq<char>, name: Seq<char>)
    requires
        path_prefix(base) matches Some((kind, _)) ==> !kind.verbatim(),
    ensures
        base.len() > 0 && base.last() != '\\' && base.last() != '/' && !(base.len() == 2 && base[1]
            == ':') ==> joined_path(base, seq![name]) == base + seq!['\\'] + name,
        base.len() > 0 && (base.last() == '\\' || base.last() == '/') ==> joined_path(
            base,
            seq![name],
        ) == base + name,
        base.len() == 0 ==> joined_path(base, seq![name]) == name,
        base.len() == 2 && 'A' <= base[0] <= 'Z' && base[1] == ':' ==> joined_path(
            base,
            seq![name],
        ) == base + name,
{
    reveal_strlit("\\");
    assert("\\"@ =~= seq!['\\']);
    reveal_with_fuel(join, 2);
    assert(seq![name].drop_last() =~= Seq::<Seq<char>>::empty());
    assert(join(seq![name], "\\"@) =~= name);
    if base.len() == 2 && 'A' <= base[0] <= 'Z' && base[1] == ':' {
        assert(base =~= seq![base[0], ':'] + Seq::<char>::empty());
        drive_is_told_by_its_letter(base[0], Seq::empty());
    }
    if base.len() == 0 {
        plain_path_has_no_prefix(base);
        assert(base + name =~= name);
    }
    if path_prefix(base) is Some {
        let (kind, n) = path_prefix(base)->0;
        if kind is Disk {
            assert(n == 2);
            assert(base[1] == ':');
        }
    }
}

/// An extension is what follows the last dot of a name, where something stands before the dot.
pub proof fn extension_follows_the_last_dot(stem: Seq<char>, ext: Seq<char>)
    requires
        forall|i: int| 0 <= i < ext.len() ==> ext[i] != '.',
    ensures
        stem.len() > 0 && ext.len() > 0 ==> extension(stem + seq!['.'] + ext) == Some(ext),
        extension(seq!['.'] + ext) is None,
        extension(ext) is None,
        extension(".."@) is None,
{
    lemma_tail_has_no_dot(stem, ext);
    lemma_tail_has_no_dot(Seq::empty(), ext);
    assert(Seq::<char>::empty() + seq!['.'] + ext =~= seq!['.'] + ext);
    reveal_strlit("..");
    if ext.len() > 0 && stem.len() > 0 {
        assert((stem + seq!['.'] + ext).last() == ext.last());
        assert(".."@.last() == '.');
    }
}

proof fn lemma_tail_has_no_dot(stem: Seq<char>, ext: Seq<char>)
    requires
        forall|i: int| 0 <= i < ext.len() ==> ext[i] != '.',
    ensures
        after_last_dot(stem + seq!['.'] + ext) == Some(ext),
        after_last_dot(ext) is None,
    decreases ext.len(),
{
    let all = stem + seq!['.'] + ext;
    if ext.len() > 0 {
        lemma_tail_has_no_dot(stem, ext.drop_last());
        assert(all.drop_last() =~= stem + seq!['.'] + ext.drop_last());
        assert(ext.drop_last().push(ext.last()) =~= ext);
    } else {
        assert(all.last() == '.');
        assert(ext =~= Seq::<char>::empty());
    }
}

/// A back slash goes between a name and what follows it, and behind a share or an extended-length
/// prefix without a root; none goes behind the root, behind a drive, or before the root.
pub proof fn separators_stand_where_they_are_wanted(
    comps: Seq<ComponentModel>,
    name: Seq<char>,
    text: Seq<char>,
    c: char,
)
    ensures
        wants_separator(comps.push(ComponentModel::Normal(name))),
        wants_separator(comps.push(ComponentModel::ParentDir)),
        wants_separator(comps.push(ComponentModel::CurDir)),
        !wants_separator(comps.push(ComponentModel::RootDir)),
        !wants_separator(comps.push(ComponentModel::Prefix(PrefixKind::Disk(c), text))),
        wants_separator(comps.push(ComponentModel::Prefix(PrefixKind::VerbatimDisk(c), text))),
        wants_separator(comps.push(ComponentModel::Prefix(PrefixKind::Verbatim, text))),
        !wants_separator(Seq::empty()),
        rendered(comps.push(ComponentModel::RootDir)) == rendered(comps) + seq!['\\'],
{
    reveal_strlit("\\");
    assert("\\"@ =~= seq!['\\']);
    assert(comps.push(ComponentModel::RootDir).drop_last() =~= comps);
}

/// Names that are joined to an extended-length path become its last components.
pub proof fn names_are_joined_to_an_extended_path(base: Seq<char>, names: Seq<Seq<char>>)
    requires
        path_prefix(base) matches Some((kind, _)) && (kind is Verbatim || kind is VerbatimUnc
            || kind is VerbatimDisk),
    ensures
        joined_path(base, names) == rendered(
            components(base) + names.map_values(|n: Seq<char>| ComponentModel::Normal(n)),
        ),
{
}

} // verus!
