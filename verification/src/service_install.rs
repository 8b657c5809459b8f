//! Registering the service: which binary may run with the system's rights, and the order
//! of the steps that put it there.

use crate::paths::{
    Component, ComponentModel, PrefixKind, component_views, components, comps_start_with, file_name,
    last_name, on_a_drive, parse_components, same_component, starts_on_a_drive, starts_with_path,
};
use crate::routing::cat;
use crate::text::{
    chars_of, decimal_int, decimal_int_text, eq_ignore_ascii_case, opt_view,
    same_ignoring_ascii_case, string_range, views,
};
use vstd::prelude::*;
use vstd::string::*;

verus! {

// ── Which binary ──────────────────────────────────────────────────────────────

/// Whether a path starts at the root of a plain drive.
pub open spec fn on_an_ordinary_drive(comps: Seq<ComponentModel>) -> bool {
    comps.len() >= 2 && comps[0] is Prefix && comps[0]->Prefix_0 is Disk && comps[1] is RootDir
}

/// Whether a path has a `.` or `..` component.
pub open spec fn has_dots(comps: Seq<ComponentModel>) -> bool {
    exists|i: int|
        0 <= i < comps.len() && ((#[trigger] comps[i]) is CurDir || comps[i] is ParentDir)
}

/// Whether a path is a file in a directory that stands directly under the root.
pub open spec fn direct_child(path: Seq<ComponentModel>, root: Seq<ComponentModel>) -> bool {
    &&& starts_with_path(path, root)
    &&& path.len() == root.len() + 2
    &&& path[root.len() as int] is Normal
    &&& path[root.len() as int + 1] is Normal
}

/// Whether a path is the service's binary, spelled without detours, on a drive, in a
/// directory of its own under one of the roots.
pub open spec fn allowed_service_path(path: Seq<char>, roots: Seq<Seq<char>>) -> bool {
    let comps = components(path);
    &&& file_name(comps) is Some
    &&& same_ignoring_ascii_case(file_name(comps)->0, "eir-svc.exe"@)
    &&& !has_dots(comps)
    &&& on_a_drive(comps)
    &&& exists|i: int| 0 <= i < roots.len() && direct_child(comps, components(#[trigger] roots[i]))
}

/// Whether two paths have the same components, in any ASCII case.
pub open spec fn equal_paths(left: Seq<char>, right: Seq<char>) -> bool {
    components(left).len() == components(right).len() && starts_with_path(
        components(left),
        components(right),
    )
}

/// Whether a path starts at the root of a plain drive.
pub fn ordinary_disk_path(path: &str) -> (r: bool)
    ensures
        r == on_an_ordinary_drive(components(path@)),
{
    let comps = parse_components(path);
    let ghost p = component_views(comps@);
    if comps.len() < 2 {
        return false;
    }
    assert(p[0] == comps@[0]@ && p[1] == comps@[1]@);
    let disk = match &comps[0] {
        Component::Prefix(kind, _) => matches!(*kind, PrefixKind::Disk(_)),
        _ => false,
    };
    disk && matches!(&comps[1], Component::RootDir)
}

fn has_dot_components(comps: &Vec<Component>) -> (r: bool)
    ensures
        r == has_dots(component_views(comps@)),
{
    let ghost p = component_views(comps@);
    let mut i: usize = 0;
    while i < comps.len()
        invariant
            i <= comps@.len(),
            p == component_views(comps@),
            forall|k: int| 0 <= k < i ==> !((#[trigger] p[k]) is CurDir) && !(p[k] is ParentDir),
        decreases comps@.len() - i,
    {
        assert(p[i as int] == comps@[i as int]@);
        if matches!(&comps[i], Component::CurDir | Component::ParentDir) {
            return true;
        }
        i += 1;
    }
    false
}

/// Whether a path starts with the components of another, in any ASCII case.
pub fn path_starts_with(path: &str, root: &str) -> (r: bool)
    ensures
        r == starts_with_path(components(path@), components(root@)),
{
    comps_start_with(&parse_components(path), &parse_components(root))
}

fn comps_direct_child(path: &Vec<Component>, root: &Vec<Component>) -> (r: bool)
    ensures
        r == direct_child(component_views(path@), component_views(root@)),
{
    let ghost p = component_views(path@);
    let n: usize = root.len();
    if !comps_start_with(path, root) {
        return false;
    }
    if path.len() - n != 2 {
        return false;
    }
    assert(p[n as int] == path@[n as int]@ && p[n + 1] == path@[n + 1]@);
    matches!(&path[n], Component::Normal(_)) && matches!(&path[n + 1], Component::Normal(_))
}

/// Whether a path is a file in a directory that stands directly under the root.
pub fn is_direct_service_child(path: &str, root: &str) -> (r: bool)
    ensures
        r == direct_child(components(path@), components(root@)),
{
    comps_direct_child(&parse_components(path), &parse_components(root))
}

/// Whether a path may be registered to run with the system's rights.
pub fn service_path_is_allowed(path: &str, program_files_roots: &Vec<String>) -> (r: bool)
    ensures
        r == allowed_service_path(path@, views(program_files_roots@)),
{
    let comps = parse_components(path);
    let named = match last_name(&comps) {
        Some(name) => eq_ignore_ascii_case(name, "eir-svc.exe"),
        None => false,
    };
    if !named || has_dot_components(&comps) || !starts_on_a_drive(&comps) {
        return false;
    }
    let ghost roots = views(program_files_roots@);
    let mut i: usize = 0;
    while i < program_files_roots.len()
        invariant
            i <= program_files_roots@.len(),
            roots == views(program_files_roots@),
            component_views(comps@) == components(path@),
            file_name(components(path@)) is Some,
            same_ignoring_ascii_case(file_name(components(path@))->0, "eir-svc.exe"@),
            !has_dots(components(path@)),
            on_a_drive(components(path@)),
            forall|k: int|
                0 <= k < i ==> !direct_child(components(path@), components(#[trigger] roots[k])),
        decreases program_files_roots@.len() - i,
    {
        assert(roots[i as int] == program_files_roots@[i as int]@);
        let root = parse_components(program_files_roots[i].as_str());
        if comps_direct_child(&comps, &root) {
            return true;
        }
        i += 1;
    }
    false
}

/// Whether two paths have the same components, in any ASCII case.
pub fn paths_equal(left: &str, right: &str) -> (r: bool)
    ensures
        r == equal_paths(left@, right@),
{
    let a = parse_components(left);
    let b = parse_components(right);
    assert(component_views(a@).len() == a@.len() && component_views(b@).len() == b@.len());
    a.len() == b.len() && comps_start_with(&a, &b)
}

/// Whether a path is none of the listed ones.
pub open spec fn new_root(roots: Seq<Seq<char>>, path: Seq<char>) -> bool {
    forall|i: int| 0 <= i < roots.len() ==> !equal_paths(#[trigger] roots[i], path)
}

/// The first root, then each of the others that is known and is not listed yet.
pub open spec fn distinct_roots(first: Seq<char>, others: Seq<Option<Seq<char>>>) -> Seq<Seq<char>>
    decreases others.len(),
{
    if others.len() == 0 {
        seq![first]
    } else {
        let before = distinct_roots(first, others.drop_last());
        match others.last() {
            Some(path) if new_root(before, path) => before.push(path),
            _ => before,
        }
    }
}

/// The views of a sequence of optional texts.
pub open spec fn opt_views(v: Seq<Option<String>>) -> Seq<Option<Seq<char>>> {
    v.map_values(|o: Option<String>| opt_view(o))
}

/// The directories that programs are installed in: the first, then each of the others that
/// could be resolved and is another directory.
pub fn program_files_roots(first: String, others: Vec<Option<String>>) -> (r: Vec<String>)
    ensures
        views(r@) == distinct_roots(first@, opt_views(others@)),
{
    let mut roots: Vec<String> = Vec::new();
    let ghost start = first@;
    roots.push(first);
    assert(views(roots@) =~= seq![start]);
    let ghost all = opt_views(others@);
    let mut i: usize = 0;
    assert(all.take(0) =~= Seq::<Option<Seq<char>>>::empty());
    while i < others.len()
        invariant
            i <= others@.len(),
            all == opt_views(others@),
            views(roots@) == distinct_roots(start, all.take(i as int)),
        decreases others@.len() - i,
    {
        assert(all.take(i + 1).drop_last() =~= all.take(i as int));
        assert(all.take(i + 1).last() == opt_view(others@[i as int]));
        let ghost before = views(roots@);
        if let Some(path) = &others[i] {
            let mut fresh = true;
            let mut k: usize = 0;
            while k < roots.len()
                invariant
                    k <= roots@.len(),
                    before == views(roots@),
                    fresh == forall|m: int| 0 <= m < k ==> !equal_paths(#[trigger] before[m], path@),
                decreases roots@.len() - k,
            {
                assert(before[k as int] == roots@[k as int]@);
                if paths_equal(roots[k].as_str(), path.as_str()) {
                    fresh = false;
                }
                k += 1;
            }
            if fresh {
                let copy = path.clone();
                roots.push(copy);
                assert(views(roots@) =~= before.push(path@));
            }
        }
        i += 1;
    }
    assert(all.take(all.len() as int) =~= all);
    roots
}

/// Whether an account is the local system.
pub open spec fn is_local_system(account: Seq<char>) -> bool {
    same_ignoring_ascii_case(account, "LocalSystem"@) || same_ignoring_ascii_case(
        account,
        ".\\LocalSystem"@,
    ) || same_ignoring_ascii_case(account, "NT AUTHORITY\\SYSTEM"@)
}

/// Whether a service account is the local system under any of its names.
pub fn local_system_account(account: Option<&str>) -> (r: bool)
    ensures
        r == (account is Some && is_local_system(account->0@)),
{
    match account {
        Some(name) => eq_ignore_ascii_case(name, "LocalSystem") || eq_ignore_ascii_case(
            name,
            ".\\LocalSystem",
        ) || eq_ignore_ascii_case(name, "NT AUTHORITY\\SYSTEM"),
        None => false,
    }
}

/// A path without the quotes around it, where it has both.
pub open spec fn unquoted(s: Seq<char>) -> Seq<char> {
    if s.len() >= 2 && s[0] == '"' && s.last() == '"' {
        s.subrange(1, s.len() - 1)
    } else {
        s
    }
}

/// Whether the registered path, which may be quoted, is the expected one in any ASCII case.
pub fn configured_path_matches(configured: &str, expected: &str) -> (r: bool)
    ensures
        r == same_ignoring_ascii_case(unquoted(configured@), expected@),
{
    let v = chars_of(configured);
    let n: usize = v.len();
    if n >= 2 && v[0] == '"' && v[n - 1] == '"' {
        let inner = string_range(&v, 1, n - 1);
        eq_ignore_ascii_case(inner.as_str(), expected)
    } else {
        eq_ignore_ascii_case(configured, expected)
    }
}

// ── Checking the binary ───────────────────────────────────────────────────────

/// What has to be done next to check the binary that asks to be registered.
#[derive(Debug, Clone, Copy, PartialEq, Eq, Structural)]
pub enum CheckStep {
    /// Look at the components of its path: none may be a reparse point.
    InspectComponents,
    /// Open it: it must be a plain file with one link.
    InspectLinks,
    /// Resolve it and the program directories.
    Canonicalize,
    /// The resolved path must be a regular file.
    InspectFile,
    /// Take ownership and reset the permissions of its directory.
    Harden,
    InspectComponentsAgain,
    InspectLinksAgain,
    /// Resolve it once more.
    CanonicalizeAgain,
    Accepted,
    Refused(CheckRefusal),
}

/// The attribute of a file that stands for another one.
pub const REPARSE_POINT: u32 = 0x400;

/// The attribute of a directory.
pub const DIRECTORY: u32 = 0x10;

/// How a step went wrong.
#[derive(Debug, Clone, Copy, PartialEq, Eq, Structural)]
pub enum StepFailure {
    /// A file's attributes could not be read.
    Inspect,
    /// A component of the path is a reparse point.
    ReparsePoint,
    /// The file could not be opened.
    Open,
    /// The file is none, or has other links.
    NotSingleLink,
    /// A path could not be resolved.
    Canonicalize,
    /// The path could not be resolved again.
    Recheck,
    /// The binary stands in no directory.
    NoParent,
    /// The tool that sets permissions could not be run.
    RunTool,
    /// The tool ended with this code while it set the owner.
    OwnerNotSet(Option<i32>),
    /// The tool ended with this code while it reset the permissions.
    PermissionsNotReset(Option<i32>),
    /// The step was answered by what belongs to another.
    OutOfOrder,
}

/// Why a binary may not be registered.
#[derive(Debug, Clone, Copy, PartialEq, Eq, Structural)]
pub enum CheckRefusal {
    NotOnALocalDrive,
    OutsideProgramFiles,
    StepFailed(StepFailure),
    ResolvesOutsideProgramFiles,
    NotARegularFile,
    ChangedMeanwhile,
}

/// The code that a tool ended with, in words.
pub open spec fn exit_code_text(code: Option<i32>) -> Seq<char> {
    match code {
        Some(n) => "Some("@ + decimal_int(n as int) + ")"@,
        None => "None"@,
    }
}

fn exit_code(code: Option<i32>) -> (r: String)
    ensures
        r@ == exit_code_text(code),
{
    match code {
        Some(n) => {
            let mut r = cat("Some(", decimal_int_text(n as i64).as_str());
            r.append(")");
            r
        },
        None => "None".to_owned(),
    }
}

/// A message about what could not be done to a path, with the code that the tool ended with.
pub open spec fn tool_failure(what: Seq<char>, path: Seq<char>, code: Option<i32>) -> Seq<char> {
    what + path + " (exit code "@ + exit_code_text(code) + ")"@
}

fn tool_failed(what: &str, path: &str, code: Option<i32>) -> (r: String)
    ensures
        r@ == tool_failure(what@, path@, code),
{
    let mut r = cat(what, path);
    r.append(" (exit code ");
    r.append(exit_code(code).as_str());
    r.append(")");
    r
}

impl StepFailure {
    /// The failure in words. The path is the one that the step was at: the binary or one of
    /// the directories that it is in, a program directory that is resolved, or the tool that
    /// is run.
    pub open spec fn text(self, path: Seq<char>) -> Seq<char> {
        match self {
            StepFailure::Inspect => "inspect "@ + path,
            StepFailure::ReparsePoint => "service path contains a reparse point: "@ + path,
            StepFailure::Open => "open "@ + path + " without following links"@,
            StepFailure::NotSingleLink => "service binary must be a regular file with exactly one hardlink: "@
                + path,
            StepFailure::Canonicalize => "canonicalize "@ + path,
            StepFailure::Recheck => "re-check "@ + path,
            StepFailure::NoParent => "the service executable has no parent directory"@,
            StepFailure::RunTool => "run "@ + path,
            StepFailure::OwnerNotSet(code) => tool_failure(
                "icacls could not set the protected owner on "@,
                path,
                code,
            ),
            StepFailure::PermissionsNotReset(code) => tool_failure(
                "icacls could not reset the protected ACL on "@,
                path,
                code,
            ),
            StepFailure::OutOfOrder => "the service executable could not be checked"@,
        }
    }

    /// The failure in words, of the path that the step was at.
    pub fn message(self, path: &str) -> (r: String)
        ensures
            r@ == self.text(path@),
    {
        match self {
            StepFailure::Inspect => cat("inspect ", path),
            StepFailure::ReparsePoint => cat("service path contains a reparse point: ", path),
            StepFailure::Open => {
                let mut r = cat("open ", path);
                r.append(" without following links");
                r
            },
            StepFailure::NotSingleLink => cat(
                "service binary must be a regular file with exactly one hardlink: ",
                path,
            ),
            StepFailure::Canonicalize => cat("canonicalize ", path),
            StepFailure::Recheck => cat("re-check ", path),
            StepFailure::NoParent => "the service executable has no parent directory".to_owned(),
            StepFailure::RunTool => cat("run ", path),
            StepFailure::OwnerNotSet(code) => tool_failed(
                "icacls could not set the protected owner on ",
                path,
                code,
            ),
            StepFailure::PermissionsNotReset(code) => tool_failed(
                "icacls could not reset the protected ACL on ",
                path,
                code,
            ),
            StepFailure::OutOfOrder => "the service executable could not be checked".to_owned(),
        }
    }
}

impl CheckRefusal {
    /// The refusal in words. The path is the binary's, or the one that a step failed at.
    pub open spec fn text(self, path: Seq<char>) -> Seq<char> {
        match self {
            CheckRefusal::NotOnALocalDrive => "the service executable must use a local drive path"@,
            CheckRefusal::OutsideProgramFiles => "refusing to register a LocalSystem binary outside Program Files: "@
                + path,
            CheckRefusal::StepFailed(failure) => failure.text(path),
            CheckRefusal::ResolvesOutsideProgramFiles => "the service executable resolves outside Program Files"@,
            CheckRefusal::NotARegularFile => "the service executable is not a regular file"@,
            CheckRefusal::ChangedMeanwhile => "the service executable changed while its permissions were secured"@,
        }
    }

    /// The refusal in words, of the binary or of the path that a step failed at.
    pub fn message(self, path: &str) -> (r: String)
        ensures
            r@ == self.text(path@),
    {
        match self {
            CheckRefusal::NotOnALocalDrive => "the service executable must use a local drive path".to_owned(),
            CheckRefusal::OutsideProgramFiles => cat(
                "refusing to register a LocalSystem binary outside Program Files: ",
                path,
            ),
            CheckRefusal::StepFailed(failure) => failure.message(path),
            CheckRefusal::ResolvesOutsideProgramFiles => "the service executable resolves outside Program Files".to_owned(),
            CheckRefusal::NotARegularFile => "the service executable is not a regular file".to_owned(),
            CheckRefusal::ChangedMeanwhile => "the service executable changed while its permissions were secured".to_owned(),
        }
    }
}

/// What is wrong with a component of the path, by its attributes.
pub open spec fn component_failure(attributes: Option<u32>) -> Option<StepFailure> {
    match attributes {
        None => Some(StepFailure::Inspect),
        Some(a) => if a & REPARSE_POINT == 0 {
            None
        } else {
            Some(StepFailure::ReparsePoint)
        },
    }
}

/// The first component with which something is wrong, and what that is: the attributes are
/// those of the path and of each directory above it, and none where they cannot be read.
pub fn first_unsafe_component(attributes: &Vec<Option<u32>>) -> (r: Option<(usize, StepFailure)>)
    ensures
        match r {
            Some((i, failure)) => {
                &&& i < attributes@.len()
                &&& component_failure(attributes@[i as int]) == Some(failure)
                &&& forall|j: int|
                    0 <= j < i ==> component_failure(#[trigger] attributes@[j]) is None
            },
            None => forall|j: int|
                0 <= j < attributes@.len() ==> component_failure(#[trigger] attributes@[j]) is None,
        },
{
    let mut i: usize = 0;
    while i < attributes.len()
        invariant
            i <= attributes@.len(),
            forall|j: int| 0 <= j < i ==> component_failure(#[trigger] attributes@[j]) is None,
        decreases attributes@.len() - i,
    {
        match attributes[i] {
            None => return Some((i, StepFailure::Inspect)),
            Some(a) => {
                if a & REPARSE_POINT != 0 {
                    return Some((i, StepFailure::ReparsePoint));
                }
            },
        }
        i += 1;
    }
    None
}

/// What the components come to: the failure of the first with which something is wrong.
pub open spec fn components_failure(attributes: Seq<Option<u32>>) -> Option<StepFailure>
    decreases attributes.len(),
{
    if attributes.len() == 0 {
        None
    } else if component_failure(attributes[0]) is Some {
        component_failure(attributes[0])
    } else {
        components_failure(attributes.skip(1))
    }
}

proof fn lemma_components_failure(attributes: Seq<Option<u32>>, i: int)
    requires
        0 <= i <= attributes.len(),
        forall|j: int| 0 <= j < i ==> component_failure(#[trigger] attributes[j]) is None,
    ensures
        components_failure(attributes) == (if i < attributes.len() && component_failure(
            attributes[i],
        ) is Some {
            component_failure(attributes[i])
        } else {
            components_failure(attributes.skip(i))
        }),
    decreases i,
{
    if i == 0 {
        assert(attributes.skip(0) =~= attributes);
    } else {
        assert(component_failure(attributes[0]) is None);
        let rest = attributes.skip(1);
        assert forall|j: int| 0 <= j < i - 1 implies component_failure(#[trigger] rest[j]) is None by {
            assert(component_failure(attributes[j + 1]) is None);
        }
        lemma_components_failure(rest, i - 1);
        assert(rest.skip(i - 1) =~= attributes.skip(i));
    }
}

/// Whether a file is a plain one with a single link, by its attributes and its links.
pub open spec fn is_single_link(attributes: u32, links: u32) -> bool {
    attributes & REPARSE_POINT == 0 && attributes & DIRECTORY == 0 && links == 1
}

/// What came of a step.
pub enum CheckEvent {
    /// The attributes of the path and of each directory above it, as far as they can be read.
    Components(Vec<Option<u32>>),
    /// The attributes of the file that was opened, and the number of its links.
    File(u32, u32),
    /// The resolved binary and the resolved program directories.
    Canonical(String, Vec<String>),
    /// Whether the resolved path is a regular file.
    Regular(bool),
    /// The permissions are secured.
    Hardened,
    Failed(StepFailure),
}

/// A check of a binary under way: the next step, and the resolved path once it is known.
pub struct BinaryCheck {
    pub step: CheckStep,
    pub canonical: Option<String>,
}

/// The step after the components were looked at.
pub open spec fn after_components(attributes: Seq<Option<u32>>, next: CheckStep) -> CheckStep {
    match components_failure(attributes) {
        Some(failure) => CheckStep::Refused(CheckRefusal::StepFailed(failure)),
        None => next,
    }
}

/// The step after the file was opened.
pub open spec fn after_links(attributes: u32, links: u32, next: CheckStep) -> CheckStep {
    if is_single_link(attributes, links) {
        next
    } else {
        CheckStep::Refused(CheckRefusal::StepFailed(StepFailure::NotSingleLink))
    }
}

/// The step that follows.
pub open spec fn check_after(
    step: CheckStep,
    canonical: Option<Seq<char>>,
    event: CheckEvent,
) -> CheckStep {
    match (step, event) {
        (CheckStep::Accepted, _) => CheckStep::Accepted,
        (CheckStep::Refused(refusal), _) => CheckStep::Refused(refusal),
        (_, CheckEvent::Failed(failure)) => CheckStep::Refused(CheckRefusal::StepFailed(failure)),
        (CheckStep::InspectComponents, CheckEvent::Components(attributes)) => after_components(
            attributes@,
            CheckStep::InspectLinks,
        ),
        (CheckStep::InspectLinks, CheckEvent::File(attributes, links)) => after_links(
            attributes,
            links,
            CheckStep::Canonicalize,
        ),
        (CheckStep::Canonicalize, CheckEvent::Canonical(exe, roots)) => if allowed_service_path(
            exe@,
            views(roots@),
        ) {
            CheckStep::InspectFile
        } else {
            CheckStep::Refused(CheckRefusal::ResolvesOutsideProgramFiles)
        },
        (CheckStep::InspectFile, CheckEvent::Regular(regular)) => if regular {
            CheckStep::Harden
        } else {
            CheckStep::Refused(CheckRefusal::NotARegularFile)
        },
        (CheckStep::Harden, CheckEvent::Hardened) => CheckStep::InspectComponentsAgain,
        (CheckStep::InspectComponentsAgain, CheckEvent::Components(attributes)) => after_components(
            attributes@,
            CheckStep::InspectLinksAgain,
        ),
        (CheckStep::InspectLinksAgain, CheckEvent::File(attributes, links)) => after_links(
            attributes,
            links,
            CheckStep::CanonicalizeAgain,
        ),
        (CheckStep::CanonicalizeAgain, CheckEvent::Canonical(exe, _)) => if canonical is Some
            && equal_paths(canonical->0, exe@) {
            CheckStep::Accepted
        } else {
            CheckStep::Refused(CheckRefusal::ChangedMeanwhile)
        },
        _ => CheckStep::Refused(CheckRefusal::StepFailed(StepFailure::OutOfOrder)),
    }
}

fn pass_components(attributes: &Vec<Option<u32>>, next: CheckStep) -> (r: CheckStep)
    ensures
        r == after_components(attributes@, next),
{
    match first_unsafe_component(attributes) {
        Some((i, failure)) => {
            proof {
                lemma_components_failure(attributes@, i as int);
            }
            CheckStep::Refused(CheckRefusal::StepFailed(failure))
        },
        None => {
            proof {
                lemma_components_failure(attributes@, attributes@.len() as int);
            }
            next
        },
    }
}

fn pass_links(attributes: u32, links: u32, next: CheckStep) -> (r: CheckStep)
    ensures
        r == after_links(attributes, links, next),
{
    if attributes & REPARSE_POINT == 0 && attributes & DIRECTORY == 0 && links == 1 {
        next
    } else {
        CheckStep::Refused(CheckRefusal::StepFailed(StepFailure::NotSingleLink))
    }
}

impl BinaryCheck {
    /// Start checking a binary, by its path alone: it must be on a plain drive and in a
    /// directory of its own under the program directories.
    pub fn begin(executable: &str, roots: &Vec<String>) -> (r: BinaryCheck)
        ensures
            r.canonical is None,
            r.step == (if !on_an_ordinary_drive(components(executable@)) {
                CheckStep::Refused(CheckRefusal::NotOnALocalDrive)
            } else if !allowed_service_path(executable@, views(roots@)) {
                CheckStep::Refused(CheckRefusal::OutsideProgramFiles)
            } else {
                CheckStep::InspectComponents
            }),
    {
        let step = if !ordinary_disk_path(executable) {
            CheckStep::Refused(CheckRefusal::NotOnALocalDrive)
        } else if !service_path_is_allowed(executable, roots) {
            CheckStep::Refused(CheckRefusal::OutsideProgramFiles)
        } else {
            CheckStep::InspectComponents
        };
        BinaryCheck { step, canonical: None }
    }

    /// Go on after a step. The path that the first resolution gave is kept for the last
    /// one; a step that fails, or that is answered by what belongs to another, ends the
    /// check with a refusal.
    pub fn advance(&mut self, event: CheckEvent)
        ensures
            final(self).step == check_after(old(self).step, opt_view(old(self).canonical), event),
            opt_view(final(self).canonical) == (if old(self).step is Canonicalize
                && event is Canonical {
                Some((event->Canonical_0)@)
            } else {
                opt_view(old(self).canonical)
            }),
    {
        let step = self.step;
        match (step, event) {
            (CheckStep::Accepted, _) => {},
            (CheckStep::Refused(_), _) => {},
            (_, CheckEvent::Failed(failure)) => {
                self.step = CheckStep::Refused(CheckRefusal::StepFailed(failure));
            },
            (CheckStep::InspectComponents, CheckEvent::Components(attributes)) => {
                self.step = pass_components(&attributes, CheckStep::InspectLinks);
            },
            (CheckStep::InspectLinks, CheckEvent::File(attributes, links)) => {
                self.step = pass_links(attributes, links, CheckStep::Canonicalize);
            },
            (CheckStep::Canonicalize, CheckEvent::Canonical(exe, roots)) => {
                self.step = if service_path_is_allowed(exe.as_str(), &roots) {
                    CheckStep::InspectFile
                } else {
                    CheckStep::Refused(CheckRefusal::ResolvesOutsideProgramFiles)
                };
                self.canonical = Some(exe);
            },
            (CheckStep::InspectFile, CheckEvent::Regular(regular)) => {
                self.step = if regular {
                    CheckStep::Harden
                } else {
                    CheckStep::Refused(CheckRefusal::NotARegularFile)
                };
            },
            (CheckStep::Harden, CheckEvent::Hardened) => {
                self.step = CheckStep::InspectComponentsAgain;
            },
            (CheckStep::InspectComponentsAgain, CheckEvent::Components(attributes)) => {
                self.step = pass_components(&attributes, CheckStep::InspectLinksAgain);
            },
            (CheckStep::InspectLinksAgain, CheckEvent::File(attributes, links)) => {
                self.step = pass_links(attributes, links, CheckStep::CanonicalizeAgain);
            },
            (CheckStep::CanonicalizeAgain, CheckEvent::Canonical(exe, _)) => {
                let unchanged = match &self.canonical {
                    Some(before) => paths_equal(before.as_str(), exe.as_str()),
                    None => false,
                };
                self.step = if unchanged {
                    CheckStep::Accepted
                } else {
                    CheckStep::Refused(CheckRefusal::ChangedMeanwhile)
                };
            },
            _ => {
                self.step = CheckStep::Refused(CheckRefusal::StepFailed(StepFailure::OutOfOrder));
            },
        }
    }
}

/// A binary is accepted only once its permissions are secured and it still resolves to the
/// path that was found under the program directories.
pub proof fn accepted_binary_is_unchanged(
    step: CheckStep,
    canonical: Option<Seq<char>>,
    event: CheckEvent,
)
    requires
        check_after(step, canonical, event) is Accepted,
        !(step is Accepted),
    ensures
        step is CanonicalizeAgain,
        event is Canonical,
        canonical is Some,
        equal_paths(canonical->0, (event->Canonical_0)@),
{
}

/// A refused binary stays refused.
pub proof fn refusal_is_final(step: CheckStep, canonical: Option<Seq<char>>, event: CheckEvent)
    requires
        step is Refused,
    ensures
        check_after(step, canonical, event) == step,
{
}

// ── Registering the service ───────────────────────────────────────────────────

/// The description under which the service is registered.
pub const DESCRIPTION: &'static str = "Autonomous Windows system repair agent powered by AI";

/// What the service manager says a service is doing.
#[derive(Debug, Clone, Copy, PartialEq, Eq, Structural)]
pub enum ServiceState {
    Stopped,
    StartPending,
    StopPending,
    Running,
    ContinuePending,
    PausePending,
    Paused,
}

/// A service's registration, as the service manager reports it.
#[derive(Debug)]
pub struct ServiceConfig {
    pub own_process: bool,
    pub auto_start: bool,
    pub account_name: Option<String>,
    pub executable_path: String,
}

/// What has to be done next to register the service.
#[derive(Debug, Clone, Copy, PartialEq, Eq, Structural)]
pub enum InstallStep {
    Connect,
    Open,
    ReadExisting,
    ReadExistingStatus,
    Change,
    Create,
    Describe,
    Start,
    VerifyConfig,
    VerifyStatus,
    Done,
    Refused(InstallRefusal),
}

/// Why the service was not registered.
#[derive(Debug, Clone, Copy, PartialEq, Eq, Structural)]
pub enum InstallRefusal {
    Connect,
    Open,
    ReadExisting,
    ForeignAccount,
    ReadExistingStatus,
    NotStopped,
    Change,
    Create,
    Describe,
    Start,
    VerifyConfig,
    NotRetained,
    VerifyStatus,
    StoppedAtOnce,
}

impl InstallRefusal {
    /// The refusal in words.
    pub open spec fn text(self) -> Seq<char> {
        match self {
            InstallRefusal::Connect => "connect to the Windows service manager (run as Administrator)"@,
            InstallRefusal::Open => "open the existing service registration"@,
            InstallRefusal::ReadExisting => "read the existing service configuration"@,
            InstallRefusal::ForeignAccount => "refusing to preserve a non-LocalSystem service account"@,
            InstallRefusal::ReadExistingStatus => "read the existing service status"@,
            InstallRefusal::NotStopped => "the existing service must be fully stopped before it can be updated"@,
            InstallRefusal::Change => "update the existing service registration"@,
            InstallRefusal::Create => "create the service registration"@,
            InstallRefusal::Describe => "set the service description"@,
            InstallRefusal::Start => "start the service"@,
            InstallRefusal::VerifyConfig => "verify the installed service configuration"@,
            InstallRefusal::NotRetained => "the service manager did not retain the secure Eir registration"@,
            InstallRefusal::VerifyStatus => "verify the installed service status"@,
            InstallRefusal::StoppedAtOnce => "the service stopped immediately after installation"@,
        }
    }

    /// The refusal in words.
    pub fn message(self) -> (r: &'static str)
        ensures
            r@ == self.text(),
    {
        match self {
            InstallRefusal::Connect => "connect to the Windows service manager (run as Administrator)",
            InstallRefusal::Open => "open the existing service registration",
            InstallRefusal::ReadExisting => "read the existing service configuration",
            InstallRefusal::ForeignAccount => "refusing to preserve a non-LocalSystem service account",
            InstallRefusal::ReadExistingStatus => "read the existing service status",
            InstallRefusal::NotStopped => "the existing service must be fully stopped before it can be updated",
            InstallRefusal::Change => "update the existing service registration",
            InstallRefusal::Create => "create the service registration",
            InstallRefusal::Describe => "set the service description",
            InstallRefusal::Start => "start the service",
            InstallRefusal::VerifyConfig => "verify the installed service configuration",
            InstallRefusal::NotRetained => "the service manager did not retain the secure Eir registration",
            InstallRefusal::VerifyStatus => "verify the installed service status",
            InstallRefusal::StoppedAtOnce => "the service stopped immediately after installation",
        }
    }
}

/// What the service manager answered to a step.
pub enum InstallEvent {
    Succeeded,
    Failed,
    /// There is no such service.
    Missing,
    /// The service runs already.
    AlreadyRunning,
    Config(ServiceConfig),
    Status(ServiceState),
}

/// Whether a registration is the one that was asked for.
pub open spec fn secure_registration(config: ServiceConfig, executable: Seq<char>) -> bool {
    &&& config.own_process
    &&& config.auto_start
    &&& config.account_name is Some
    &&& is_local_system((config.account_name->0)@)
    &&& same_ignoring_ascii_case(unquoted(config.executable_path@), executable)
}

/// The refusal that a failure of a step means.
pub open spec fn refusal_of(step: InstallStep) -> InstallRefusal {
    match step {
        InstallStep::Connect => InstallRefusal::Connect,
        InstallStep::Open => InstallRefusal::Open,
        InstallStep::ReadExisting => InstallRefusal::ReadExisting,
        InstallStep::ReadExistingStatus => InstallRefusal::ReadExistingStatus,
        InstallStep::Change => InstallRefusal::Change,
        InstallStep::Create => InstallRefusal::Create,
        InstallStep::Describe => InstallRefusal::Describe,
        InstallStep::Start => InstallRefusal::Start,
        InstallStep::VerifyConfig => InstallRefusal::VerifyConfig,
        InstallStep::VerifyStatus => InstallRefusal::VerifyStatus,
        InstallStep::Done => InstallRefusal::VerifyStatus,
        InstallStep::Refused(refusal) => refusal,
    }
}

/// The step that follows.
pub open spec fn install_after(
    step: InstallStep,
    event: InstallEvent,
    executable: Seq<char>,
) -> InstallStep {
    match (step, event) {
        (InstallStep::Connect, InstallEvent::Succeeded) => InstallStep::Open,
        (InstallStep::Open, InstallEvent::Succeeded) => InstallStep::ReadExisting,
        (InstallStep::Open, InstallEvent::Missing) => InstallStep::Create,
        (InstallStep::ReadExisting, InstallEvent::Config(config)) => if config.account_name is Some
            && is_local_system((config.account_name->0)@) {
            InstallStep::ReadExistingStatus
        } else {
            InstallStep::Refused(InstallRefusal::ForeignAccount)
        },
        (InstallStep::ReadExistingStatus, InstallEvent::Status(state)) => if state is Stopped {
            InstallStep::Change
        } else {
            InstallStep::Refused(InstallRefusal::NotStopped)
        },
        (InstallStep::Change, InstallEvent::Succeeded) => InstallStep::Describe,
        (InstallStep::Create, InstallEvent::Succeeded) => InstallStep::Describe,
        (InstallStep::Describe, InstallEvent::Succeeded) => InstallStep::Start,
        (InstallStep::Start, InstallEvent::Succeeded) => InstallStep::VerifyConfig,
        (InstallStep::Start, InstallEvent::AlreadyRunning) => InstallStep::VerifyConfig,
        (InstallStep::VerifyConfig, InstallEvent::Config(config)) => if secure_registration(
            config,
            executable,
        ) {
            InstallStep::VerifyStatus
        } else {
            InstallStep::Refused(InstallRefusal::NotRetained)
        },
        (InstallStep::VerifyStatus, InstallEvent::Status(state)) => if state is Running
            || state is StartPending {
            InstallStep::Done
        } else {
            InstallStep::Refused(InstallRefusal::StoppedAtOnce)
        },
        (InstallStep::Done, _) => InstallStep::Done,
        _ => InstallStep::Refused(refusal_of(step)),
    }
}

fn refusal_for(step: InstallStep) -> (r: InstallRefusal)
    ensures
        r == refusal_of(step),
{
    match step {
        InstallStep::Connect => InstallRefusal::Connect,
        InstallStep::Open => InstallRefusal::Open,
        InstallStep::ReadExisting => InstallRefusal::ReadExisting,
        InstallStep::ReadExistingStatus => InstallRefusal::ReadExistingStatus,
        InstallStep::Change => InstallRefusal::Change,
        InstallStep::Create => InstallRefusal::Create,
        InstallStep::Describe => InstallRefusal::Describe,
        InstallStep::Start => InstallRefusal::Start,
        InstallStep::VerifyConfig => InstallRefusal::VerifyConfig,
        InstallStep::VerifyStatus => InstallRefusal::VerifyStatus,
        InstallStep::Done => InstallRefusal::VerifyStatus,
        InstallStep::Refused(refusal) => refusal,
    }
}

fn config_is_local_system(config: &ServiceConfig) -> (r: bool)
    ensures
        r == (config.account_name is Some && is_local_system((config.account_name->0)@)),
{
    match &config.account_name {
        Some(name) => local_system_account(Some(name.as_str())),
        None => false,
    }
}

/// The step that follows in registering or updating the service. An existing service is
/// changed only where it runs as the local system and is stopped; a new or changed one
/// counts only once the service manager reports it as it was asked for, and as running.
pub fn install_or_update(step: InstallStep, event: &InstallEvent, executable: &str) -> (r:
    InstallStep)
    ensures
        r == install_after(step, *event, executable@),
{
    match (step, event) {
        (InstallStep::Connect, InstallEvent::Succeeded) => InstallStep::Open,
        (InstallStep::Open, InstallEvent::Succeeded) => InstallStep::ReadExisting,
        (InstallStep::Open, InstallEvent::Missing) => InstallStep::Create,
        (InstallStep::ReadExisting, InstallEvent::Config(config)) => {
            if config_is_local_system(config) {
                InstallStep::ReadExistingStatus
            } else {
                InstallStep::Refused(InstallRefusal::ForeignAccount)
            }
        },
        (InstallStep::ReadExistingStatus, InstallEvent::Status(state)) => {
            if matches!(state, ServiceState::Stopped) {
                InstallStep::Change
            } else {
                InstallStep::Refused(InstallRefusal::NotStopped)
            }
        },
        (InstallStep::Change, InstallEvent::Succeeded) => InstallStep::Describe,
        (InstallStep::Create, InstallEvent::Succeeded) => InstallStep::Describe,
        (InstallStep::Describe, InstallEvent::Succeeded) => InstallStep::Start,
        (InstallStep::Start, InstallEvent::Succeeded) => InstallStep::VerifyConfig,
        (InstallStep::Start, InstallEvent::AlreadyRunning) => InstallStep::VerifyConfig,
        (InstallStep::VerifyConfig, InstallEvent::Config(config)) => {
            if config.own_process && config.auto_start && config_is_local_system(config)
                && configured_path_matches(config.executable_path.as_str(), executable) {
                InstallStep::VerifyStatus
            } else {
                InstallStep::Refused(InstallRefusal::NotRetained)
            }
        },
        (InstallStep::VerifyStatus, InstallEvent::Status(state)) => {
            if matches!(state, ServiceState::Running | ServiceState::StartPending) {
                InstallStep::Done
            } else {
                InstallStep::Refused(InstallRefusal::StoppedAtOnce)
            }
        },
        (InstallStep::Done, _) => InstallStep::Done,
        _ => InstallStep::Refused(refusal_for(step)),
    }
}

/// A service that runs under another account is never taken over.
pub proof fn foreign_account_is_refused(config: ServiceConfig, executable: Seq<char>)
    requires
        config.account_name is None || !is_local_system((config.account_name->0)@),
    ensures
        install_after(InstallStep::ReadExisting, InstallEvent::Config(config), executable)
            == InstallStep::Refused(InstallRefusal::ForeignAccount),
        install_after(InstallStep::VerifyConfig, InstallEvent::Config(config), executable)
            == InstallStep::Refused(InstallRefusal::NotRetained),
{
}

/// Registration is reported done only of a service that is running or about to.
pub proof fn done_means_running(step: InstallStep, event: InstallEvent, executable: Seq<char>)
    requires
        install_after(step, event, executable) is Done,
        !(step is Done),
    ensures
        step is VerifyStatus,
        event == InstallEvent::Status(ServiceState::Running) || event == InstallEvent::Status(
            ServiceState::StartPending,
        ),
{
}

/// What may be registered lies on a drive, in a directory directly under a root that it
/// starts with, and is not reached by `.` or `..`.
pub proof fn registered_binary_lies_under_a_root(path: Seq<char>, roots: Seq<Seq<char>>)
    requires
        allowed_service_path(path, roots),
    ensures
        on_a_drive(components(path)),
        !has_dots(components(path)),
        exists|i: int|
            0 <= i < roots.len() && starts_with_path(
                components(path),
                components(#[trigger] roots[i]),
            ),
{
    let i = choose|i: int|
        0 <= i < roots.len() && direct_child(components(path), components(#[trigger] roots[i]));
    assert(starts_with_path(components(path), components(roots[i])));
}

// ── Running as a service ──────────────────────────────────────────────────────

/// The helper that starts the service again once it has stopped, up to what it prints to.
/// It waits for the service to stop, then asks for its start until it runs.
pub const RESTART_SCRIPT: &'static str =
    "& { Get-Date -Format o; $d=(Get-Date).AddSeconds(60); while((Get-Date) -lt $d){ $s=(Get-Service EirSvc -ErrorAction SilentlyContinue).Status; if($null -eq $s -or $s -eq 'Stopped'){break}; Start-Sleep -Milliseconds 500 }; for($i=0;$i -lt 60;$i++){ if((Get-Service EirSvc -ErrorAction SilentlyContinue).Status -eq 'Running'){break}; if($i % 5 -eq 0){ sc.exe start EirSvc }; Start-Sleep -Seconds 1 }; Get-Date -Format o; Get-Service EirSvc -ErrorAction SilentlyContinue | Format-List Name,Status,StartType } *> ";

/// The arguments of the helper that starts the service again; the path of its log is quoted
/// already.
pub fn restart_args(quoted_log: &str) -> (r: Vec<String>)
    ensures
        views(r@) == seq![
            "-NoProfile"@,
            "-NonInteractive"@,
            "-Command"@,
            RESTART_SCRIPT@ + quoted_log@,
        ],
{
    let mut script = RESTART_SCRIPT.to_owned();
    script.append(quoted_log);
    let mut args: Vec<String> = Vec::new();
    args.push("-NoProfile".to_owned());
    args.push("-NonInteractive".to_owned());
    args.push("-Command".to_owned());
    args.push(script);
    assert(views(args@) =~= seq![
        "-NoProfile"@,
        "-NonInteractive"@,
        "-Command"@,
        RESTART_SCRIPT@ + quoted_log@,
    ]);
    args
}

/// What the service manager asks of the running service.
#[derive(Debug, Clone, Copy, PartialEq, Eq, Structural)]
pub enum ServiceControl {
    Stop,
    Shutdown,
    Interrogate,
    Other,
}

/// What the running service does about a control.
#[derive(Debug, Clone, Copy, PartialEq, Eq, Structural)]
pub struct ControlAnswer {
    /// Stop the service, and report that it is stopping.
    pub stop: bool,
    /// The control is known.
    pub handled: bool,
}

/// Seconds that the service manager is asked to wait for the service to stop: enough for a
/// fix that runs to finish and for the power plan to be restored.
pub const STOP_WAIT_SECS: u64 = 35;

/// What the running service does about a control.
pub fn handle_control(control: ServiceControl) -> (r: ControlAnswer)
    ensures
        r.stop == (control is Stop || control is Shutdown),
        r.handled == !(control is Other),
{
    match control {
        ServiceControl::Stop => ControlAnswer { stop: true, handled: true },
        ServiceControl::Shutdown => ControlAnswer { stop: true, handled: true },
        ServiceControl::Interrogate => ControlAnswer { stop: false, handled: true },
        ServiceControl::Other => ControlAnswer { stop: false, handled: false },
    }
}

/// The commands that secure a directory and the binary in it: each gets the protected owner
/// and then its inherited permissions.
pub open spec fn hardening(directory: Seq<char>, executable: Seq<char>) -> Seq<Seq<Seq<char>>> {
    seq![
        seq![directory, "/setowner"@, "*S-1-5-32-544"@, "/Q"@],
        seq![directory, "/reset"@, "/Q"@],
        seq![executable, "/setowner"@, "*S-1-5-32-544"@, "/Q"@],
        seq![executable, "/reset"@, "/Q"@],
    ]
}

fn owner_args(path: &str) -> (r: Vec<String>)
    ensures
        views(r@) == seq![path@, "/setowner"@, "*S-1-5-32-544"@, "/Q"@],
{
    let mut args: Vec<String> = Vec::new();
    args.push(path.to_owned());
    args.push("/setowner".to_owned());
    args.push("*S-1-5-32-544".to_owned());
    args.push("/Q".to_owned());
    assert(views(args@) =~= seq![path@, "/setowner"@, "*S-1-5-32-544"@, "/Q"@]);
    args
}

fn reset_args(path: &str) -> (r: Vec<String>)
    ensures
        views(r@) == seq![path@, "/reset"@, "/Q"@],
{
    let mut args: Vec<String> = Vec::new();
    args.push(path.to_owned());
    args.push("/reset".to_owned());
    args.push("/Q".to_owned());
    assert(views(args@) =~= seq![path@, "/reset"@, "/Q"@]);
    args
}

/// The arguments of the commands that secure the service's directory and its binary, in
/// order.
pub fn harden_install_tree(directory: &str, executable: &str) -> (r: Vec<Vec<String>>)
    ensures
        r@.map_values(|args: Vec<String>| views(args@)) == hardening(directory@, executable@),
{
    let mut out: Vec<Vec<String>> = Vec::new();
    out.push(owner_args(directory));
    out.push(reset_args(directory));
    out.push(owner_args(executable));
    out.push(reset_args(executable));
    assert(out@.map_values(|args: Vec<String>| views(args@)) =~= hardening(
        directory@,
        executable@,
    ));
    out
}

// ── What registering comes to ─────────────────────────────────────────────────

/// A binary may be registered where its path is that of a root, a directory and the binary's
/// name, written without detours, and the root starts at a drive.
pub proof fn binary_under_a_root_may_be_registered(
    path: Seq<char>,
    roots: Seq<Seq<char>>,
    i: int,
    dir: Seq<char>,
    name: Seq<char>,
)
    requires
        0 <= i < roots.len(),
        components(path) == components(roots[i]).push(ComponentModel::Normal(dir)).push(
            ComponentModel::Normal(name),
        ),
        same_ignoring_ascii_case(name, "eir-svc.exe"@),
        on_a_drive(components(roots[i])),
        forall|k: int|
            0 <= k < components(roots[i]).len() ==> !((#[trigger] components(roots[i])[k]) is CurDir)
                && !(components(roots[i])[k] is ParentDir),
    ensures
        allowed_service_path(path, roots),
{
    let root = components(roots[i]);
    let comps = components(path);
    assert(comps.last() == ComponentModel::Normal(name));
    assert(comps[0] == root[0] && comps[1] == root[1]);
    assert forall|k: int| 0 <= k < root.len() implies same_component(#[trigger] comps[k], root[k]) by {
        assert(comps[k] == root[k]);
    }
    assert(!has_dots(comps)) by {
        if has_dots(comps) {
            let k = choose|k: int|
                0 <= k < comps.len() && ((#[trigger] comps[k]) is CurDir || comps[k] is ParentDir);
            if k < root.len() {
                assert(comps[k] == root[k]);
            }
        }
    }
    assert(direct_child(comps, components(roots[i])));
}

/// What may be registered ends in the binary's name, and has a directory and that name and
/// nothing else behind its root.
pub proof fn registered_binary_has_its_name(path: Seq<char>, roots: Seq<Seq<char>>) -> (i: int)
    requires
        allowed_service_path(path, roots),
    ensures
        0 <= i < roots.len(),
        components(path).len() == components(roots[i]).len() + 2,
        components(path).last() matches ComponentModel::Normal(name) && same_ignoring_ascii_case(
            name,
            "eir-svc.exe"@,
        ),
        components(path)[components(roots[i]).len() as int] is Normal,
        forall|k: int|
            0 <= k < components(roots[i]).len() ==> same_ignoring_ascii_case(
                (#[trigger] components(path)[k]).text(),
                components(roots[i])[k].text(),
            ),
        forall|k: int|
            0 <= k < components(path).len() ==> !((#[trigger] components(path)[k]) is CurDir)
                && !(components(path)[k] is ParentDir),
{
    let i = choose|i: int|
        0 <= i < roots.len() && direct_child(components(path), components(#[trigger] roots[i]));
    assert forall|k: int| 0 <= k < components(roots[i]).len() implies same_ignoring_ascii_case(
        (#[trigger] components(path)[k]).text(),
        components(roots[i])[k].text(),
    ) by {
        assert(same_component(components(path)[k], components(roots[i])[k]));
    }
    i
}

/// A plain drive is a letter and a root; an extended-length one is none.
pub proof fn plain_drive_is_a_letter_and_a_root(comps: Seq<ComponentModel>)
    ensures
        on_an_ordinary_drive(comps) <==> comps.len() >= 2 && (comps[0] matches
            ComponentModel::Prefix(PrefixKind::Disk(_), _)) && comps[1] == ComponentModel::RootDir,
{
}

/// Two paths are equal where they have as many components and those are the same one by one, in
/// any ASCII case.
pub proof fn equal_paths_have_the_same_components(a: Seq<char>, b: Seq<char>)
    ensures
        equal_paths(a, b) <==> components(a).len() == components(b).len() && forall|i: int|
            0 <= i < components(a).len() ==> same_ignoring_ascii_case(
                (#[trigger] components(a)[i]).text(),
                components(b)[i].text(),
            ),
{
    if equal_paths(a, b) {
        assert forall|i: int| 0 <= i < components(a).len() implies same_ignoring_ascii_case(
            (#[trigger] components(a)[i]).text(),
            components(b)[i].text(),
        ) by {
            assert(same_component(components(a)[i], components(b)[i]));
        }
    }
}

/// The roots start with the first, hold one for each of the others that is known, and no two of
/// them are the same.
pub proof fn each_root_is_listed_once(
    first: Seq<char>,
    others: Seq<Option<Seq<char>>>,
    k: int,
    i: int,
    j: int,
)
    ensures
        ({
            let roots = distinct_roots(first, others);
            &&& roots.len() > 0 && roots[0] == first
            &&& 0 <= k < others.len() && others[k] is Some ==> roots.contains(others[k]->0)
                || exists|x: int| 0 <= x < roots.len() && equal_paths(#[trigger] roots[x], others[k]->0)
            &&& 0 <= i < j < roots.len() ==> !equal_paths(roots[i], roots[j])
            &&& 0 < i < roots.len() ==> others.contains(Some(roots[i]))
        }),
    decreases others.len(),
{
    if others.len() > 0 {
        let before = others.drop_last();
        let had = distinct_roots(first, before);
        let roots = distinct_roots(first, others);
        each_root_is_listed_once(first, before, k, i, j);
        assert forall|x: int| 0 <= x < had.len() implies roots[x] == had[x] by {}
        if 0 <= k < before.len() && others[k] is Some {
            assert(before[k] == others[k]);
            if had.contains(others[k]->0) {
                let x = choose|x: int| 0 <= x < had.len() && had[x] == others[k]->0;
                assert(roots[x] == others[k]->0);
            } else {
                let x = choose|x: int|
                    0 <= x < had.len() && equal_paths(#[trigger] had[x], others[k]->0);
                assert(equal_paths(roots[x], others[k]->0));
            }
        }
        if k == others.len() - 1 && others[k] is Some {
            let path = others[k]->0;
            if new_root(had, path) {
                assert(roots[had.len() as int] == path);
            } else {
                let x = choose|x: int| 0 <= x < had.len() && equal_paths(#[trigger] had[x], path);
                assert(equal_paths(roots[x], path));
            }
        }
        if 0 <= i < j < roots.len() && j == had.len() {
            assert(!equal_paths(had[i], others.last()->0));
        }
        if 0 < i < roots.len() {
            if i < had.len() {
                let x = choose|x: int| 0 <= x < before.len() && before[x] == Some(had[i]);
                assert(others[x] == Some(roots[i]));
            } else {
                assert(others[others.len() - 1] == Some(roots[i]));
            }
        }
    }
}

/// The local system goes by three names, in any ASCII case, and by no other.
pub proof fn local_system_goes_by_its_names(account: Seq<char>)
    ensures
        is_local_system(account) <==> same_ignoring_ascii_case(account, "LocalSystem"@)
            || same_ignoring_ascii_case(account, ".\\LocalSystem"@) || same_ignoring_ascii_case(
            account,
            "NT AUTHORITY\\SYSTEM"@,
        ),
{
}

/// Both quotes are taken off or none.
pub proof fn quotes_go_together(path: Seq<char>)
    ensures
        unquoted(seq!['"'] + path + seq!['"']) == path,
        path.len() > 0 && path[0] != '"' ==> unquoted(path) == path,
        path.len() > 0 && path.last() != '"' ==> unquoted(path) == path,
{
    let all = seq!['"'] + path + seq!['"'];
    assert(all.subrange(1, all.len() - 1) =~= path);
}

/// A component of the path is safe where its attributes are known and say that it is no reparse
/// point; the first that is not decides.
pub proof fn first_unsafe_component_decides(attributes: Seq<Option<u32>>, i: int)
    ensures
        component_failure(None) == Some(StepFailure::Inspect),
        attributes.len() > 0 && attributes[0] is Some && attributes[0]->0 & 0x400 != 0
            ==> components_failure(attributes) == Some(StepFailure::ReparsePoint),
        attributes.len() > 0 && attributes[0] is None ==> components_failure(attributes) == Some(
            StepFailure::Inspect,
        ),
        (forall|k: int|
            0 <= k < attributes.len() ==> (#[trigger] attributes[k]) is Some && attributes[k]->0
                & 0x400 == 0) ==> components_failure(attributes) is None,
        0 <= i < attributes.len() && !(attributes[i] is Some && attributes[i]->0 & 0x400 == 0)
            ==> components_failure(attributes) is Some,
    decreases attributes.len(),
{
    if attributes.len() > 0 {
        let rest = attributes.skip(1);
        first_unsafe_component_decides(rest, i - 1);
        if forall|k: int|
            0 <= k < attributes.len() ==> (#[trigger] attributes[k]) is Some && attributes[k]->0
                & 0x400 == 0 {
            assert(attributes[0] is Some);
            assert forall|k: int| 0 <= k < rest.len() implies (#[trigger] rest[k]) is Some && rest[
                k
            ]->0 & 0x400 == 0 by {
                assert(rest[k] == attributes[k + 1]);
            }
        }
        if 0 < i < attributes.len() {
            assert(rest[i - 1] == attributes[i]);
        }
    }
}

/// A file is taken where it is no reparse point and no directory, and has one link.
pub proof fn plain_file_has_one_link(attributes: u32, links: u32)
    ensures
        is_single_link(attributes, links) <==> attributes & 0x400 == 0 && attributes & 0x10 == 0
            && links == 1,
{
}

/// A check goes through every step in order, and no step is passed over.
pub proof fn check_goes_through_its_steps(
    attributes: Vec<Option<u32>>,
    a: u32,
    links: u32,
    exe: String,
    roots: Vec<String>,
    canonical: Option<Seq<char>>,
)
    requires
        forall|k: int|
            0 <= k < attributes@.len() ==> (#[trigger] attributes@[k]) is Some && attributes@[k]->0
                & 0x400 == 0,
        a & 0x400 == 0 && a & 0x10 == 0 && links == 1,
    ensures
        check_after(CheckStep::InspectComponents, canonical, CheckEvent::Components(attributes))
            == CheckStep::InspectLinks,
        check_after(CheckStep::InspectLinks, canonical, CheckEvent::File(a, links))
            == CheckStep::Canonicalize,
        check_after(CheckStep::Canonicalize, canonical, CheckEvent::Canonical(exe, roots)) == (
        if allowed_service_path(exe@, views(roots@)) {
            CheckStep::InspectFile
        } else {
            CheckStep::Refused(CheckRefusal::ResolvesOutsideProgramFiles)
        }),
        check_after(CheckStep::InspectFile, canonical, CheckEvent::Regular(true))
            == CheckStep::Harden,
        check_after(CheckStep::InspectFile, canonical, CheckEvent::Regular(false))
            == CheckStep::Refused(CheckRefusal::NotARegularFile),
        check_after(CheckStep::Harden, canonical, CheckEvent::Hardened)
            == CheckStep::InspectComponentsAgain,
        check_after(
            CheckStep::InspectComponentsAgain,
            canonical,
            CheckEvent::Components(attributes),
        ) == CheckStep::InspectLinksAgain,
        check_after(CheckStep::InspectLinksAgain, canonical, CheckEvent::File(a, links))
            == CheckStep::CanonicalizeAgain,
        canonical is Some && equal_paths(canonical->0, exe@) ==> check_after(
            CheckStep::CanonicalizeAgain,
            canonical,
            CheckEvent::Canonical(exe, roots),
        ) == CheckStep::Accepted,
        canonical is None || !equal_paths(canonical->0, exe@) ==> check_after(
            CheckStep::CanonicalizeAgain,
            canonical,
            CheckEvent::Canonical(exe, roots),
        ) == CheckStep::Refused(CheckRefusal::ChangedMeanwhile),
{
    first_unsafe_component_decides(attributes@, 0);
}

/// A reparse point, a second link or a step that failed ends a check with a refusal, at whichever
/// step it comes up.
pub proof fn what_is_unsafe_ends_the_check(
    step: CheckStep,
    canonical: Option<Seq<char>>,
    attributes: Vec<Option<u32>>,
    i: int,
    a: u32,
    links: u32,
    failure: StepFailure,
)
    requires
        !(step is Accepted),
        0 <= i < attributes@.len() && !(attributes@[i] is Some && attributes@[i]->0 & 0x400 == 0),
        !(a & 0x400 == 0 && a & 0x10 == 0 && links == 1),
    ensures
        check_after(step, canonical, CheckEvent::Components(attributes)) is Refused,
        check_after(step, canonical, CheckEvent::File(a, links)) is Refused,
        check_after(step, canonical, CheckEvent::Failed(failure)) is Refused,
        !(step is Refused) ==> check_after(step, canonical, CheckEvent::Failed(failure))
            == CheckStep::Refused(CheckRefusal::StepFailed(failure)),
{
    first_unsafe_component_decides(attributes@, i);
}

/// Registering goes through its steps in order: a service that is there is read and changed, one
/// that is missing is created, and either is described, started and looked at.
pub proof fn registering_goes_through_its_steps(config: ServiceConfig, exe: Seq<char>)
    ensures
        install_after(InstallStep::Connect, InstallEvent::Succeeded, exe) == InstallStep::Open,
        install_after(InstallStep::Open, InstallEvent::Succeeded, exe) == InstallStep::ReadExisting,
        install_after(InstallStep::Open, InstallEvent::Missing, exe) == InstallStep::Create,
        config.account_name is Some && is_local_system((config.account_name->0)@) ==> install_after(
            InstallStep::ReadExisting,
            InstallEvent::Config(config),
            exe,
        ) == InstallStep::ReadExistingStatus,
        install_after(
            InstallStep::ReadExistingStatus,
            InstallEvent::Status(ServiceState::Stopped),
            exe,
        ) == InstallStep::Change,
        install_after(InstallStep::Change, InstallEvent::Succeeded, exe) == InstallStep::Describe,
        install_after(InstallStep::Create, InstallEvent::Succeeded, exe) == InstallStep::Describe,
        install_after(InstallStep::Describe, InstallEvent::Succeeded, exe) == InstallStep::Start,
        install_after(InstallStep::Start, InstallEvent::Succeeded, exe) == InstallStep::VerifyConfig,
        install_after(InstallStep::Start, InstallEvent::AlreadyRunning, exe)
            == InstallStep::VerifyConfig,
        config.own_process && config.auto_start && config.account_name is Some && is_local_system(
            (config.account_name->0)@,
        ) && same_ignoring_ascii_case(unquoted(config.executable_path@), exe) ==> install_after(
            InstallStep::VerifyConfig,
            InstallEvent::Config(config),
            exe,
        ) == InstallStep::VerifyStatus,
        install_after(InstallStep::VerifyStatus, InstallEvent::Status(ServiceState::Running), exe)
            == InstallStep::Done,
        install_after(
            InstallStep::VerifyStatus,
            InstallEvent::Status(ServiceState::StartPending),
            exe,
        ) == InstallStep::Done,
{
}

/// A service that is not stopped is not changed; a registration that is not what was asked for is
/// not taken, whichever part of it differs; and a failed step ends it with that step's refusal.
pub proof fn registering_stops_at_what_is_wrong(
    config: ServiceConfig,
    exe: Seq<char>,
    state: ServiceState,
)
    ensures
        !(state is Stopped) ==> install_after(
            InstallStep::ReadExistingStatus,
            InstallEvent::Status(state),
            exe,
        ) == InstallStep::Refused(InstallRefusal::NotStopped),
        !config.own_process || !config.auto_start || !same_ignoring_ascii_case(
            unquoted(config.executable_path@),
            exe,
        ) ==> install_after(InstallStep::VerifyConfig, InstallEvent::Config(config), exe)
            == InstallStep::Refused(InstallRefusal::NotRetained),
        !(state is Running) && !(state is StartPending) ==> install_after(
            InstallStep::VerifyStatus,
            InstallEvent::Status(state),
            exe,
        ) == InstallStep::Refused(InstallRefusal::StoppedAtOnce),
        install_after(InstallStep::Connect, InstallEvent::Failed, exe) == InstallStep::Refused(
            InstallRefusal::Connect,
        ),
        install_after(InstallStep::Open, InstallEvent::Failed, exe) == InstallStep::Refused(
            InstallRefusal::Open,
        ),
        install_after(InstallStep::ReadExisting, InstallEvent::Failed, exe) == InstallStep::Refused(
            InstallRefusal::ReadExisting,
        ),
        install_after(InstallStep::ReadExistingStatus, InstallEvent::Failed, exe)
            == InstallStep::Refused(InstallRefusal::ReadExistingStatus),
        install_after(InstallStep::Change, InstallEvent::Failed, exe) == InstallStep::Refused(
            InstallRefusal::Change,
        ),
        install_after(InstallStep::Create, InstallEvent::Failed, exe) == InstallStep::Refused(
            InstallRefusal::Create,
        ),
        install_after(InstallStep::Describe, InstallEvent::Failed, exe) == InstallStep::Refused(
            InstallRefusal::Describe,
        ),
        install_after(InstallStep::Start, InstallEvent::Failed, exe) == InstallStep::Refused(
            InstallRefusal::Start,
        ),
        install_after(InstallStep::VerifyConfig, InstallEvent::Failed, exe) == InstallStep::Refused(
            InstallRefusal::VerifyConfig,
        ),
        install_after(InstallStep::VerifyStatus, InstallEvent::Failed, exe) == InstallStep::Refused(
            InstallRefusal::VerifyStatus,
        ),
{
}

/// The directory and the binary are each given to the administrators and then get the permissions
/// that they inherit.
pub proof fn directory_and_binary_are_secured(directory: Seq<char>, executable: Seq<char>)
    ensures
        ({
            let h = hardening(directory, executable);
            &&& h.len() == 4
            &&& h[0] == seq![directory, "/setowner"@, "*S-1-5-32-544"@, "/Q"@]
            &&& h[1] == seq![directory, "/reset"@, "/Q"@]
            &&& h[2] == seq![executable, "/setowner"@, "*S-1-5-32-544"@, "/Q"@]
            &&& h[3] == seq![executable, "/reset"@, "/Q"@]
        }),
{
}

/// The service stops where it is told to or the machine shuts down, and for nothing else; it knows
/// every control but unknown ones.
pub proof fn service_stops_when_told(control: ServiceControl, r: ControlAnswer)
    requires
        call_ensures(handle_control, (control,), r),
    ensures
        r.stop <==> control is Stop || control is Shutdown,
        r.handled <==> !(control is Other),
{
}

/// A check starts with the path: one off a plain drive or outside the program directories is
/// refused before anything is looked at.
pub proof fn check_starts_with_the_path(executable: &str, roots: &Vec<String>, r: BinaryCheck)
    requires
        call_ensures(BinaryCheck::begin, (executable, roots), r),
    ensures
        r.canonical is None,
        !on_an_ordinary_drive(components(executable@)) ==> r.step == CheckStep::Refused(
            CheckRefusal::NotOnALocalDrive,
        ),
        on_an_ordinary_drive(components(executable@)) && !allowed_service_path(
            executable@,
            views(roots@),
        ) ==> r.step == CheckStep::Refused(CheckRefusal::OutsideProgramFiles),
        on_an_ordinary_drive(components(executable@)) && allowed_service_path(
            executable@,
            views(roots@),
        ) ==> r.step is InspectComponents,
{
}

/// The path that the first resolution gave is kept for the last, and nothing else sets it.
pub proof fn first_resolution_is_kept(check: &mut BinaryCheck, event: CheckEvent)
    requires
        call_ensures(BinaryCheck::advance, (check, event), ()),
    ensures
        old(check).step is Canonicalize ==> (event matches CheckEvent::Canonical(exe, _) ==> final(check).canonical is Some && (final(check).canonical->0)@ == exe@),
        !(old(check).step is Canonicalize) || !(event is Canonical) ==> opt_view(
            final(check).canonical,
        ) == opt_view(old(check).canonical),
        final(check).step is Accepted && !(old(check).step is Accepted) ==> old(check).step is CanonicalizeAgain && old(check).canonical is Some && (event matches
            CheckEvent::Canonical(exe, _) && equal_paths((old(check).canonical->0)@, exe@)),
{
}

/// An account is the local system where it is known and goes by one of its names; a registered
/// path is the expected one without its quotes and in any ASCII case.
pub proof fn account_and_path_are_compared(
    account: Option<&str>,
    configured: &str,
    expected: &str,
    a: bool,
    b: bool,
)
    requires
        call_ensures(local_system_account, (account,), a),
        call_ensures(configured_path_matches, (configured, expected), b),
    ensures
        account is None ==> !a,
        account is Some ==> a == is_local_system(account->0@),
        b <==> same_ignoring_ascii_case(unquoted(configured@), expected@),
{
}

/// A refusal to register names what is wrong, and a failed step the path that it failed at.
pub proof fn refusals_are_told(
    refusal: InstallRefusal,
    said: &'static str,
    failure: StepFailure,
    path: &str,
    told: String,
    check: CheckRefusal,
    answer: String,
)
    requires
        call_ensures(InstallRefusal::message, (refusal,), said),
        call_ensures(StepFailure::message, (failure, path), told),
        call_ensures(CheckRefusal::message, (check, path), answer),
    ensures
        refusal is ForeignAccount ==> said@
            == "refusing to preserve a non-LocalSystem service account"@,
        refusal is NotStopped ==> said@
            == "the existing service must be fully stopped before it can be updated"@,
        refusal is NotRetained ==> said@
            == "the service manager did not retain the secure Eir registration"@,
        refusal is StoppedAtOnce ==> said@ == "the service stopped immediately after installation"@,
        failure is Inspect || failure is ReparsePoint || failure is NotSingleLink
            || failure is Canonicalize || failure is Recheck || failure is RunTool
            ==> path@.is_suffix_of(told@),
        failure matches StepFailure::OwnerNotSet(Some(code)) ==> told@
            == "icacls could not set the protected owner on "@ + path@ + " (exit code "@ + "Some("@
            + decimal_int(code as int) + ")"@ + ")"@,
        failure matches StepFailure::PermissionsNotReset(None) ==> told@
            == "icacls could not reset the protected ACL on "@ + path@ + " (exit code "@ + "None"@
            + ")"@,
        check is OutsideProgramFiles ==> path@.is_suffix_of(answer@),
        check is NotARegularFile ==> answer@ == "the service executable is not a regular file"@,
        check is ChangedMeanwhile ==> answer@
            == "the service executable changed while its permissions were secured"@,
        check == CheckRefusal::StepFailed(failure) ==> answer@ == told@,
{
    if failure is Inspect || failure is ReparsePoint || failure is NotSingleLink
        || failure is Canonicalize || failure is Recheck || failure is RunTool {
        assert(told@.skip(told@.len() - path@.len()) =~= path@);
    }
    if failure matches StepFailure::OwnerNotSet(Some(code)) {
        let n = failure->OwnerNotSet_0->0;
        assert(told@ =~= "icacls could not set the protected owner on "@ + path@
            + " (exit code "@ + "Some("@ + decimal_int(n as int) + ")"@ + ")"@);
    }
    if check is OutsideProgramFiles {
        assert(answer@.skip(answer@.len() - path@.len()) =~= path@);
    }
}

} // verus!
