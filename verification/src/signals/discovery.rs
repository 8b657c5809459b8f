//! Finding the directories whose logs are worth watching.

use crate::paths::{
    component_views, components, parse_components, prefix_identity, prefix_text, Component,
    ComponentModel, PrefixKind, VERBATIM_UNC_LEN,
};
use crate::signals::file_watch::{
    distinct_dirs, ignored_dir, is_ignored_dir, is_listed_dir, is_recent_log, listed_dir,
    recent_log, replacement_watch_dirs, MAX_AUTO_WATCH_DIRS,
};
use crate::text::{
    chars_of, comes_first, lemma_text_le_total, lemma_text_le_transitive, lemma_views_push, text_le,
    texts_are_ordered_by_their_first_difference, views,
};
use vstd::prelude::*;
use vstd::string::*;

verus! {

// ── The order of paths ────────────────────────────────────────────────────────

/// A separator as the least character, so that what stands before it is compared first.
pub open spec fn part_char(c: char) -> char {
    if c == '\\' {
        '\0'
    } else {
        c
    }
}

/// Whether an extended-length prefix names a share after its server.
pub open spec fn has_share(text: Seq<char>) -> bool {
    exists|i: int| VERBATIM_UNC_LEN <= i < text.len() && #[trigger] text[i] == '\\'
}

/// What a prefix of several parts is ordered by: the first part, then the next. A share that
/// is not named counts as the empty one.
pub open spec fn prefix_key(kind: PrefixKind, text: Seq<char>) -> Seq<char> {
    let parts = prefix_identity(kind, text).map_values(|c: char| part_char(c));
    if kind is VerbatimUnc && !has_share(text) {
        parts.push('\0')
    } else {
        parts
    }
}

/// What a component is ordered by: its kind, then its text.
pub open spec fn component_key(c: ComponentModel) -> Seq<char> {
    match c {
        ComponentModel::Prefix(kind, text) => match kind {
            PrefixKind::Verbatim => seq!['0'] + prefix_key(kind, text),
            PrefixKind::VerbatimUnc => seq!['1'] + prefix_key(kind, text),
            PrefixKind::VerbatimDisk(letter) => seq!['2', letter],
            PrefixKind::DeviceNs => seq!['3'] + prefix_key(kind, text),
            PrefixKind::Unc => seq!['4'] + prefix_key(kind, text),
            PrefixKind::Disk(letter) => seq!['5', letter],
        },
        ComponentModel::RootDir => seq!['6'],
        ComponentModel::CurDir => seq!['7'],
        ComponentModel::ParentDir => seq!['8'],
        ComponentModel::Normal(name) => seq!['9'] + name,
    }
}

/// What a sequence of components is ordered by: the first component, then the next.
pub open spec fn components_key(comps: Seq<ComponentModel>) -> Seq<char>
    decreases comps.len(),
{
    if comps.len() == 0 {
        Seq::empty()
    } else {
        components_key(comps.drop_last()) + component_key(comps.last()).push('\0')
    }
}

/// Whether a path comes before another or is ordered like it: by the first component in
/// which they differ, a directory before what it holds.
pub open spec fn path_le(a: Seq<char>, b: Seq<char>) -> bool {
    text_le(components_key(components(a)), components_key(components(b)))
}

fn append_parts(key: &mut String, text: &str)
    ensures
        final(key)@ == old(key)@ + text@.map_values(|c: char| part_char(c)),
{
    let ghost start = key@;
    assert(start + text@.take(0).map_values(|c: char| part_char(c)) =~= start);
    for c in it: text.chars()
        invariant
            it.seq() == text@,
            key@ == start + text@.take(it.index() as int).map_values(|c: char| part_char(c)),
    {
        let d: char = if c == '\\' {
            '\0'
        } else {
            c
        };
        key.push(d);
        assert(start + text@.take(it.index() as int + 1).map_values(|c: char| part_char(c))
            =~= (start + text@.take(it.index() as int).map_values(|c: char| part_char(c))).push(d));
    }
    assert(text@.take(text@.len() as int) =~= text@);
}

fn names_a_share(text: &str) -> (r: bool)
    ensures
        r == has_share(text@),
{
    let v = chars_of(text);
    let mut i: usize = VERBATIM_UNC_LEN;
    while i < v.len()
        invariant
            VERBATIM_UNC_LEN <= i,
            v@ == text@,
            forall|k: int| VERBATIM_UNC_LEN <= k < i && k < text@.len() ==> text@[k] != '\\',
        decreases v@.len() - i,
    {
        if v[i] == '\\' {
            assert(text@[i as int] == '\\');
            return true;
        }
        i += 1;
    }
    false
}

fn append_prefix(key: &mut String, kind: PrefixKind, text: &str)
    ensures
        final(key)@ == old(key)@ + prefix_key(kind, text@),
{
    append_parts(key, prefix_text(kind, text).as_str());
    if matches!(kind, PrefixKind::VerbatimUnc) && !names_a_share(text) {
        key.push('\0');
        assert(key@ =~= old(key)@ + prefix_key(kind, text@));
    }
}

fn append_component(key: &mut String, c: &Component)
    ensures
        final(key)@ == old(key)@ + component_key(c@).push('\0'),
{
    let ghost start = key@;
    match c {
        Component::Prefix(kind, text) => match kind {
            PrefixKind::Verbatim => {
                key.push('0');
                append_prefix(key, *kind, text.as_str());
            },
            PrefixKind::VerbatimUnc => {
                key.push('1');
                append_prefix(key, *kind, text.as_str());
            },
            PrefixKind::VerbatimDisk(letter) => {
                key.push('2');
                key.push(*letter);
            },
            PrefixKind::DeviceNs => {
                key.push('3');
                append_prefix(key, *kind, text.as_str());
            },
            PrefixKind::Unc => {
                key.push('4');
                append_prefix(key, *kind, text.as_str());
            },
            PrefixKind::Disk(letter) => {
                key.push('5');
                key.push(*letter);
            },
        },
        Component::RootDir => {
            key.push('6');
        },
        Component::CurDir => {
            key.push('7');
        },
        Component::ParentDir => {
            key.push('8');
        },
        Component::Normal(name) => {
            key.push('9');
            key.append(name.as_str());
        },
    }
    assert(key@ =~= start + component_key(c@));
    key.push('\0');
    assert(key@ =~= start + component_key(c@).push('\0'));
}

fn key_of_path(path: &str) -> (r: String)
    ensures
        r@ == components_key(components(path@)),
{
    let comps = parse_components(path);
    let ghost all = component_views(comps@);
    let mut key = String::new();
    assert(all.take(0) =~= Seq::<ComponentModel>::empty());
    assert(key@ =~= components_key(all.take(0)));
    let mut i: usize = 0;
    while i < comps.len()
        invariant
            i <= comps@.len(),
            all == component_views(comps@),
            key@ == components_key(all.take(i as int)),
        decreases comps@.len() - i,
    {
        assert(all.take(i + 1).drop_last() =~= all.take(i as int));
        assert(all.take(i + 1).last() == comps@[i as int]@);
        append_component(&mut key, &comps[i]);
        i += 1;
    }
    assert(all.take(all.len() as int) =~= all);
    key
}

/// Whether a path comes before another or is ordered like it.
pub fn path_comes_first(a: &str, b: &str) -> (r: bool)
    ensures
        r == path_le(a@, b@),
{
    comes_first(key_of_path(a).as_str(), key_of_path(b).as_str())
}

/// Whether each path comes before the next.
pub open spec fn in_path_order(dirs: Seq<Seq<char>>) -> bool {
    forall|i: int, j: int| 0 <= i < j < dirs.len() ==> #[trigger] path_le(dirs[i], dirs[j])
}

/// A path put into its place among ordered ones.
pub open spec fn put_in_path_order(dirs: Seq<Seq<char>>, dir: Seq<char>) -> Seq<Seq<char>>
    decreases dirs.len(),
{
    if dirs.len() == 0 {
        seq![dir]
    } else if path_le(dirs.last(), dir) {
        dirs.push(dir)
    } else {
        put_in_path_order(dirs.drop_last(), dir).push(dirs.last())
    }
}

/// The paths in order.
pub open spec fn path_ordered(dirs: Seq<Seq<char>>) -> Seq<Seq<char>>
    decreases dirs.len(),
{
    if dirs.len() == 0 {
        Seq::empty()
    } else {
        put_in_path_order(path_ordered(dirs.drop_last()), dirs.last())
    }
}

proof fn lemma_put_bounded(dirs: Seq<Seq<char>>, dir: Seq<char>, bound: Seq<char>)
    requires
        forall|k: int| 0 <= k < dirs.len() ==> path_le(#[trigger] dirs[k], bound),
        path_le(dir, bound),
    ensures
        forall|k: int|
            0 <= k < put_in_path_order(dirs, dir).len() ==> path_le(
                #[trigger] put_in_path_order(dirs, dir)[k],
                bound,
            ),
    decreases dirs.len(),
{
    let out = put_in_path_order(dirs, dir);
    if dirs.len() > 0 && !path_le(dirs.last(), dir) {
        let before = dirs.drop_last();
        assert forall|k: int| 0 <= k < before.len() implies path_le(#[trigger] before[k], bound) by {
            assert(path_le(dirs[k], bound));
        }
        lemma_put_bounded(before, dir, bound);
        let inner = put_in_path_order(before, dir);
        assert(out == inner.push(dirs.last()));
        assert forall|k: int| 0 <= k < out.len() implies path_le(#[trigger] out[k], bound) by {
            if k < inner.len() {
                assert(path_le(inner[k], bound));
            } else {
                assert(path_le(dirs[dirs.len() - 1], bound));
            }
        }
    }
}

proof fn lemma_put_in_path_order(dirs: Seq<Seq<char>>, dir: Seq<char>)
    requires
        in_path_order(dirs),
    ensures
        in_path_order(put_in_path_order(dirs, dir)),
        put_in_path_order(dirs, dir).to_multiset() == dirs.to_multiset().insert(dir),
        put_in_path_order(dirs, dir).len() == dirs.len() + 1,
    decreases dirs.len(),
{
    broadcast use vstd::seq_lib::group_to_multiset_ensures;

    let out = put_in_path_order(dirs, dir);
    if dirs.len() == 0 {
        assert(out =~= dirs.push(dir));
    } else if path_le(dirs.last(), dir) {
        assert forall|i: int, j: int| 0 <= i < j < out.len() implies #[trigger] path_le(
            out[i],
            out[j],
        ) by {
            if j < dirs.len() {
                assert(path_le(dirs[i], dirs[j]));
            } else if i < dirs.len() - 1 {
                assert(path_le(dirs[i], dirs[dirs.len() - 1]));
                lemma_text_le_transitive(
                    components_key(components(dirs[i])),
                    components_key(components(dirs.last())),
                    components_key(components(dir)),
                );
            }
        }
    } else {
        let before = dirs.drop_last();
        assert forall|i: int, j: int| 0 <= i < j < before.len() implies #[trigger] path_le(
            before[i],
            before[j],
        ) by {
            assert(path_le(dirs[i], dirs[j]));
        }
        lemma_put_in_path_order(before, dir);
        let inner = put_in_path_order(before, dir);
        lemma_text_le_total(
            components_key(components(dirs.last())),
            components_key(components(dir)),
        );
        assert forall|k: int| 0 <= k < before.len() implies path_le(
            #[trigger] before[k],
            dirs.last(),
        ) by {
            assert(path_le(dirs[k], dirs[dirs.len() - 1]));
        }
        lemma_put_bounded(before, dir, dirs.last());
        assert forall|i: int, j: int| 0 <= i < j < out.len() implies #[trigger] path_le(
            out[i],
            out[j],
        ) by {
            if j < inner.len() {
                assert(path_le(inner[i], inner[j]));
            } else {
                assert(path_le(inner[i], dirs.last()));
            }
        }
        assert(before.push(dirs.last()) =~= dirs);
        assert(out.to_multiset() =~= dirs.to_multiset().insert(dir));
    }
}

/// Putting paths in order gives the same paths, in order.
pub proof fn ordered_paths_are_the_same_paths(dirs: Seq<Seq<char>>)
    ensures
        in_path_order(path_ordered(dirs)),
        path_ordered(dirs).to_multiset() == dirs.to_multiset(),
        path_ordered(dirs).len() == dirs.len(),
    decreases dirs.len(),
{
    broadcast use vstd::seq_lib::group_to_multiset_ensures;

    if dirs.len() == 0 {
        assert(path_ordered(dirs) =~= dirs);
    } else {
        ordered_paths_are_the_same_paths(dirs.drop_last());
        lemma_put_in_path_order(path_ordered(dirs.drop_last()), dirs.last());
        assert(dirs.drop_last().push(dirs.last()) =~= dirs);
    }
}

fn insert_path(v: &mut Vec<String>, x: String)
    ensures
        views(final(v)@) == put_in_path_order(views(old(v)@), x@),
{
    let ghost all = views(v@);
    let ghost dir = x@;
    let mut i: usize = v.len();
    assert(all.take(all.len() as int) =~= all);
    assert(put_in_path_order(all, dir) =~= put_in_path_order(all.take(i as int), dir) + all.skip(
        i as int,
    ));
    while i > 0 && !path_comes_first(v[i - 1].as_str(), x.as_str())
        invariant
            i <= v@.len(),
            all == views(v@),
            dir == x@,
            put_in_path_order(all, dir) == put_in_path_order(all.take(i as int), dir) + all.skip(
                i as int,
            ),
        ensures
            i <= v@.len(),
            all == views(v@),
            put_in_path_order(all, dir) == put_in_path_order(all.take(i as int), dir) + all.skip(
                i as int,
            ),
            i > 0 ==> path_le(all[i - 1], dir),
        decreases i,
    {
        let ghost up = all.take(i as int);
        assert(up.drop_last() =~= all.take(i - 1));
        assert(up.last() == v@[i - 1]@);
        assert(put_in_path_order(up, dir) == put_in_path_order(all.take(i - 1), dir).push(
            up.last(),
        ));
        assert(put_in_path_order(all.take(i - 1), dir).push(up.last()) + all.skip(i as int)
            =~= put_in_path_order(all.take(i - 1), dir) + all.skip(i - 1));
        i -= 1;
    }
    let ghost up = all.take(i as int);
    assert(put_in_path_order(up, dir) =~= up.push(dir));
    v.insert(i, x);
    assert(views(v@) =~= up.push(dir) + all.skip(i as int));
}

/// The paths in order.
pub fn sort_paths(v: Vec<String>) -> (r: Vec<String>)
    ensures
        views(r@) == path_ordered(views(v@)),
{
    let ghost all = views(v@);
    let mut out: Vec<String> = Vec::new();
    assert(all.take(0) =~= Seq::<Seq<char>>::empty());
    assert(views(out@) =~= Seq::<Seq<char>>::empty());
    let mut i: usize = 0;
    while i < v.len()
        invariant
            i <= v@.len(),
            all == views(v@),
            views(out@) == path_ordered(all.take(i as int)),
        decreases v@.len() - i,
    {
        assert(all.take(i + 1).drop_last() =~= all.take(i as int));
        assert(all.take(i + 1).last() == v@[i as int]@);
        insert_path(&mut out, v[i].clone());
        i += 1;
    }
    assert(all.take(all.len() as int) =~= all);
    out
}

// ── The search ────────────────────────────────────────────────────────────────

/// A configured directory, as it was resolved and looked at.
pub struct CheckedDir {
    pub path: String,
    pub is_dir: bool,
    /// It holds far more than logs, such as a whole drive.
    pub too_broad: bool,
}

/// The configured directories that may be watched: the ones that are no directories, or too
/// broad, or could not be resolved, are left out.
pub open spec fn watchable(checked: Seq<Option<CheckedDir>>) -> Seq<Seq<char>>
    decreases checked.len(),
{
    if checked.len() == 0 {
        Seq::empty()
    } else {
        let before = watchable(checked.drop_last());
        match checked.last() {
            Some(dir) if dir.is_dir && !dir.too_broad => before.push(dir.path@),
            _ => before,
        }
    }
}

/// The configured directories that may be watched, each once and in order.
pub fn configured_watch_dirs(checked: &Vec<Option<CheckedDir>>) -> (r: Vec<String>)
    ensures
        views(r@) == path_ordered(distinct_dirs(watchable(checked@))),
{
    let mut dirs: Vec<String> = Vec::new();
    assert(checked@.take(0) =~= Seq::<Option<CheckedDir>>::empty());
    assert(views(dirs@) =~= Seq::<Seq<char>>::empty());
    let mut i: usize = 0;
    while i < checked.len()
        invariant
            i <= checked@.len(),
            views(dirs@) == watchable(checked@.take(i as int)),
        decreases checked@.len() - i,
    {
        assert(checked@.take(i + 1).drop_last() =~= checked@.take(i as int));
        assert(checked@.take(i + 1).last() == checked@[i as int]);
        match &checked[i] {
            Some(dir) => {
                if dir.is_dir && !dir.too_broad {
                    let path = dir.path.clone();
                    proof {
                        lemma_views_push(dirs@, path);
                    }
                    dirs.push(path);
                }
            },
            None => {},
        }
        i += 1;
    }
    assert(checked@.take(checked@.len() as int) =~= checked@);
    sort_paths(replacement_watch_dirs(&dirs))
}

/// Entries of a directory that are looked at before its activity is judged.
pub const MAX_DISCOVERY_ENTRIES_PER_ROOT: usize = 4096;

/// An entry that was come upon below a directory.
pub struct FoundEntry {
    /// The time for the search was up when it was come upon.
    pub late: bool,
    /// It could be read.
    pub readable: bool,
    pub is_file: bool,
    pub path: String,
    /// When it was last written, if that is known.
    pub modified: Option<u64>,
}

impl FoundEntry {
    /// Whether it shows that logs are written.
    pub open spec fn shows_activity(self, cutoff: u64) -> bool {
        self.readable && recent_log(self.is_file, self.path@, self.modified, cutoff)
    }
}

/// Whether the entries of a directory show that logs are written: one of the first of them
/// does, and was come upon in time.
pub open spec fn shows_recent_logs(entries: Seq<FoundEntry>, cutoff: u64) -> bool {
    exists|i: int|
        0 <= i < entries.len() && i < MAX_DISCOVERY_ENTRIES_PER_ROOT && (
        #[trigger] entries[i]).shows_activity(cutoff) && in_time(entries, i)
}

/// Whether the time was not up at an entry, nor at any before it.
pub open spec fn in_time(entries: Seq<FoundEntry>, i: int) -> bool {
    forall|j: int| 0 <= j <= i ==> !(#[trigger] entries[j]).late
}

/// Whether the entries of a directory show that logs were written after the cut-off: the
/// first that does settles it, and once the time is up none counts.
pub fn has_recent_log_files(entries: &Vec<FoundEntry>, cutoff: u64) -> (r: bool)
    ensures
        r == shows_recent_logs(entries@, cutoff),
{
    let mut i: usize = 0;
    while i < entries.len() && i < MAX_DISCOVERY_ENTRIES_PER_ROOT
        invariant
            i <= entries@.len(),
            forall|j: int| 0 <= j < i ==> !(#[trigger] entries@[j]).late,
            forall|j: int| 0 <= j < i ==> !(#[trigger] entries@[j]).shows_activity(cutoff),
        decreases entries@.len() - i,
    {
        let entry = &entries[i];
        if entry.late {
            return false;
        }
        if entry.readable && is_recent_log(
            entry.is_file,
            entry.path.as_str(),
            entry.modified,
            cutoff,
        ) {
            assert(entries@[i as int].shows_activity(cutoff));
            return true;
        }
        i += 1;
    }
    false
}

/// A search for directories whose logs show activity.
pub struct Discovery {
    pub found: Vec<String>,
}

/// The directories found, with one more of them where it is wanted and not there yet.
pub open spec fn with_dir(found: Seq<Seq<char>>, dir: Seq<char>, wanted: bool) -> Seq<Seq<char>> {
    if wanted && !listed_dir(found, dir) {
        found.push(dir)
    } else {
        found
    }
}

impl Discovery {
    /// No directory stands in it twice.
    pub open spec fn wf(self) -> bool {
        distinct_dirs(views(self.found@)) == views(self.found@)
    }

    /// A search that has found nothing yet.
    pub fn new() -> (r: Discovery)
        ensures
            r.wf(),
            r.found@.len() == 0,
    {
        let found: Vec<String> = Vec::new();
        assert(views(found@) =~= Seq::<Seq<char>>::empty());
        assert(distinct_dirs(views(found@)) =~= views(found@));
        Discovery { found }
    }

    /// Whether the search goes on: there is room, and it is not late.
    pub fn goes_on(&self, late: bool) -> (r: bool)
        ensures
            r == (self.found@.len() < MAX_AUTO_WATCH_DIRS && !late),
    {
        self.found.len() < MAX_AUTO_WATCH_DIRS && !late
    }

    fn include_dir(&mut self, dir: &str, wanted: bool)
        requires
            old(self).wf(),
        ensures
            final(self).wf(),
            views(final(self).found@) == with_dir(views(old(self).found@), dir@, wanted),
    {
        if wanted && !is_listed_dir(&self.found, dir) {
            let path = dir.to_owned();
            let ghost before = views(self.found@);
            proof {
                lemma_views_push(self.found@, path);
            }
            self.found.push(path);
            assert(views(self.found@).drop_last() =~= before);
            assert(views(self.found@).last() == dir@);
        }
    }

    /// Take note of a root: it is watched if it is a directory, not too broad, and holds
    /// logs that were written of late. Whether the directories in it are looked at: those of
    /// a root that is no directory, or is too broad, are passed over.
    pub fn note_root(&mut self, root: &str, is_dir: bool, too_broad: bool, recent: bool) -> (r: bool)
        requires
            old(self).wf(),
        ensures
            final(self).wf(),
            r == (is_dir && !too_broad),
            views(final(self).found@) == with_dir(views(old(self).found@), root@, r && recent),
    {
        let open = is_dir && !too_broad;
        self.include_dir(root, open && recent);
        open
    }

    /// Take note of a directory in a root: it is watched if it is one, is not passed over,
    /// and holds logs that were written of late.
    pub fn note_subdir(&mut self, dir: &str, is_dir: bool, recent: bool)
        requires
            old(self).wf(),
        ensures
            final(self).wf(),
            views(final(self).found@) == with_dir(
                views(old(self).found@),
                dir@,
                is_dir && !ignored_dir(components(dir@)) && recent,
            ),
    {
        let wanted = is_dir && !is_ignored_dir(dir) && recent;
        self.include_dir(dir, wanted)
    }

    /// The directories to watch: the ones found and the configured ones, each once and in
    /// order.
    pub fn finish(self, configured: Vec<String>) -> (r: Vec<String>)
        ensures
            views(r@) == path_ordered(
                distinct_dirs(views(self.found@) + views(configured@)),
            ),
    {
        let mut all = self.found;
        let mut more = configured;
        let ghost found = views(all@);
        let ghost rest = views(more@);
        all.append(&mut more);
        assert(views(all@) =~= found + rest);
        sort_paths(replacement_watch_dirs(&all))
    }
}

// ── What the order and the search come to ─────────────────────────────────────

proof fn lemma_key_of_sum(a: Seq<ComponentModel>, b: Seq<ComponentModel>)
    ensures
        components_key(a + b) == components_key(a) + components_key(b),
    decreases b.len(),
{
    if b.len() == 0 {
        assert(a + b =~= a);
        assert(components_key(a) + components_key(b) =~= components_key(a));
    } else {
        lemma_key_of_sum(a, b.drop_last());
        assert((a + b).drop_last() =~= a + b.drop_last());
        assert((a + b).last() == b.last());
        assert(components_key(a + b) =~= components_key(a) + components_key(b));
    }
}

/// A directory comes before what it holds.
pub proof fn directory_comes_before_what_it_holds(
    a: Seq<char>,
    b: Seq<char>,
    rest: Seq<ComponentModel>,
)
    requires
        components(b) == components(a) + rest,
    ensures
        path_le(a, b),
        rest.len() > 0 ==> !path_le(b, a),
{
    lemma_key_of_sum(components(a), rest);
    if rest.len() > 0 {
        assert(components_key(rest).len() > 0);
    }
    texts_are_ordered_by_their_first_difference(
        components_key(components(a)),
        components_key(rest),
        Seq::empty(),
    );
}

/// Of two paths that part at a component, the one whose component is of the lower kind comes
/// first: a prefix, the root, the directory itself, the one above, a name.
pub proof fn kinds_are_ordered(
    a: Seq<char>,
    b: Seq<char>,
    common: Seq<ComponentModel>,
    x: ComponentModel,
    y: ComponentModel,
    after_x: Seq<ComponentModel>,
    after_y: Seq<ComponentModel>,
)
    requires
        components(a) == common + seq![x] + after_x,
        components(b) == common + seq![y] + after_y,
        (x is Prefix && !(y is Prefix)) || (x is RootDir && (y is CurDir || y is ParentDir
            || y is Normal)) || (x is CurDir && (y is ParentDir || y is Normal)) || (x is ParentDir
            && y is Normal),
    ensures
        path_le(a, b),
        !path_le(b, a),
{
    let p = component_key(x).push('\0') + components_key(after_x);
    let q = component_key(y).push('\0') + components_key(after_y);
    lemma_key_at(common, x, after_x);
    lemma_key_at(common, y, after_y);
    assert(p[0] == component_key(x)[0]);
    assert(q[0] == component_key(y)[0]);
    texts_are_ordered_by_their_first_difference(components_key(common), p, q);
}

proof fn lemma_key_at(
    common: Seq<ComponentModel>,
    x: ComponentModel,
    after: Seq<ComponentModel>,
)
    ensures
        components_key(common + seq![x] + after) == components_key(common) + (component_key(x).push(
            '\0',
        ) + components_key(after)),
{
    lemma_key_of_sum(common + seq![x], after);
    lemma_key_of_sum(common, seq![x]);
    let one = seq![x];
    let none = Seq::<ComponentModel>::empty();
    assert(one.drop_last() =~= none);
    assert(components_key(none) =~= Seq::<char>::empty());
    assert(components_key(one) =~= component_key(x).push('\0'));
    assert(components_key(common + seq![x] + after) =~= components_key(common) + (component_key(
        x,
    ).push('\0') + components_key(after)));
}

proof fn lemma_first_difference(a: Seq<char>, b: Seq<char>) -> (i: int)
    requires
        text_le(a, b),
        a != b,
    ensures
        0 <= i <= a.len(),
        i < b.len(),
        a.take(i) == b.take(i),
        i < a.len() ==> a[i] < b[i],
    decreases a.len(),
{
    if a.len() == 0 {
        if b.len() == 0 {
            assert(a =~= b);
        }
        assert(a.take(0) =~= b.take(0));
        0
    } else if a[0] != b[0] {
        assert(a.take(0) =~= b.take(0));
        0
    } else {
        let x = a.skip(1);
        let y = b.skip(1);
        if x == y {
            assert(a =~= seq![a[0]] + x);
            assert(b =~= seq![b[0]] + y);
        }
        let i = lemma_first_difference(x, y);
        assert(a.take(i + 1) =~= seq![a[0]] + x.take(i));
        assert(b.take(i + 1) =~= seq![b[0]] + y.take(i));
        i + 1
    }
}

proof fn lemma_zero_is_least(c: char)
    ensures
        c != '\0' ==> '\0' < c,
{
}

/// Of two paths that part at a name, the one whose name comes first does, whatever follows.
pub proof fn names_are_ordered(
    a: Seq<char>,
    b: Seq<char>,
    common: Seq<ComponentModel>,
    m: Seq<char>,
    n: Seq<char>,
    after_m: Seq<ComponentModel>,
    after_n: Seq<ComponentModel>,
)
    requires
        components(a) == common + seq![ComponentModel::Normal(m)] + after_m,
        components(b) == common + seq![ComponentModel::Normal(n)] + after_n,
        text_le(m, n),
        m != n,
        forall|k: int| 0 <= k < n.len() ==> n[k] != '\0',
    ensures
        path_le(a, b),
        !path_le(b, a),
{
    let x = ComponentModel::Normal(m);
    let y = ComponentModel::Normal(n);
    lemma_key_at(common, x, after_m);
    lemma_key_at(common, y, after_n);
    let i = lemma_first_difference(m, n);
    let c = components_key(common) + seq!['9'] + m.take(i);
    let p = m.skip(i).push('\0') + components_key(after_m);
    let q = n.skip(i).push('\0') + components_key(after_n);
    assert(m =~= m.take(i) + m.skip(i));
    assert(n =~= m.take(i) + n.skip(i)) by {
        assert(n =~= n.take(i) + n.skip(i));
    }
    assert(components_key(components(a)) =~= c + p);
    assert(components_key(components(b)) =~= c + q);
    assert(q[0] == n[i]);
    if i < m.len() {
        assert(p[0] == m[i]);
    } else {
        assert(p[0] == '\0');
        lemma_zero_is_least(n[i]);
    }
    assert(p[0] < q[0]);
    texts_are_ordered_by_their_first_difference(c, p, q);
}

/// The configured directories that may be watched are those that were resolved, are directories
/// and are not too broad, in order.
pub proof fn watchable_are_the_narrow_directories(checked: Seq<Option<CheckedDir>>)
    ensures
        watchable(checked) == checked.filter(
            |c: Option<CheckedDir>| c is Some && c->0.is_dir && !c->0.too_broad,
        ).map_values(|c: Option<CheckedDir>| c->0.path@),
    decreases checked.len(),
{
    reveal(Seq::filter);
    let keep = |c: Option<CheckedDir>| c is Some && c->0.is_dir && !c->0.too_broad;
    let path = |c: Option<CheckedDir>| c->0.path@;
    if checked.len() > 0 {
        let before = checked.drop_last();
        watchable_are_the_narrow_directories(before);
        if keep(checked.last()) {
            assert(checked.filter(keep) == before.filter(keep).push(checked.last()));
            assert(before.filter(keep).push(checked.last()).map_values(path)
                =~= before.filter(keep).map_values(path).push(checked.last()->0.path@));
        }
    } else {
        assert(checked.filter(keep).map_values(path) =~= watchable(checked));
    }
}

/// A recent log that is come upon in time, among the first entries, shows activity; where no
/// entry is a recent log, or the time was up at the first, nothing does.
pub proof fn recent_log_shows_activity(entries: Seq<FoundEntry>, cutoff: u64, i: int)
    ensures
        0 <= i < entries.len() && i < 4096 && entries[i].readable && recent_log(
            entries[i].is_file,
            entries[i].path@,
            entries[i].modified,
            cutoff,
        ) && (forall|j: int| 0 <= j <= i ==> !(#[trigger] entries[j]).late) ==> shows_recent_logs(
            entries,
            cutoff,
        ),
        entries.len() > 0 && entries[0].late ==> !shows_recent_logs(entries, cutoff),
        (forall|j: int|
            0 <= j < entries.len() ==> !((#[trigger] entries[j]).readable && recent_log(
                entries[j].is_file,
                entries[j].path@,
                entries[j].modified,
                cutoff,
            ))) ==> !shows_recent_logs(entries, cutoff),
        (forall|j: int|
            0 <= j < entries.len() && j < 4096 ==> !((#[trigger] entries[j]).readable && recent_log(
                entries[j].is_file,
                entries[j].path@,
                entries[j].modified,
                cutoff,
            ))) ==> !shows_recent_logs(entries, cutoff),
{
    if 0 <= i < entries.len() && entries[i].readable && recent_log(
        entries[i].is_file,
        entries[i].path@,
        entries[i].modified,
        cutoff,
    ) {
        assert(entries[i].shows_activity(cutoff));
    }
    if entries.len() > 0 && entries[0].late && shows_recent_logs(entries, cutoff) {
        let k = choose|k: int|
            0 <= k < entries.len() && k < MAX_DISCOVERY_ENTRIES_PER_ROOT && (
            #[trigger] entries[k]).shows_activity(cutoff) && in_time(entries, k);
        assert(!entries[0].late);
    }
}

/// A directory that is wanted stands among those found from then on, a new one behind the
/// others; nothing that was found is lost.
pub proof fn wanted_directory_is_found(found: Seq<Seq<char>>, dir: Seq<char>, wanted: bool)
    ensures
        found.is_prefix_of(with_dir(found, dir, wanted)),
        !wanted ==> with_dir(found, dir, wanted) == found,
        wanted && found.len() == 0 ==> with_dir(found, dir, wanted) == seq![dir],
        wanted && !listed_dir(found, dir) ==> with_dir(found, dir, wanted).last() == dir,
        listed_dir(found, dir) ==> with_dir(found, dir, wanted) == found,
{
    if wanted && found.len() == 0 {
        assert(!listed_dir(found, dir));
        assert(found.push(dir) =~= seq![dir]);
    }
}

/// A search goes on while there is room and time; a root is watched where it is a directory, not
/// too broad, and logs were written there of late, and what is in it is looked at in the first two
/// cases.
pub proof fn search_notes_what_is_active(
    d: &Discovery,
    late: bool,
    more: bool,
    a: &mut Discovery,
    root: &str,
    is_dir: bool,
    too_broad: bool,
    recent: bool,
    r: bool,
)
    requires
        call_ensures(Discovery::goes_on, (d, late), more),
        call_ensures(Discovery::note_root, (a, root, is_dir, too_broad, recent), r),
    ensures
        more <==> d.found@.len() < 96 && !late,
        r <==> is_dir && !too_broad,
        !is_dir || too_broad || !recent ==> views(final(a).found@) == views(old(a).found@),
        is_dir && !too_broad && recent && !listed_dir(views(old(a).found@), root@) ==> views(
            final(a).found@,
        ) == views(old(a).found@).push(root@),
{
}

/// A directory in a root is watched where it is one, is not passed over, and logs were written
/// there of late.
pub proof fn active_directory_is_noted(d: &mut Discovery, dir: &str, is_dir: bool, recent: bool)
    requires
        call_ensures(Discovery::note_subdir, (d, dir, is_dir, recent), ()),
    ensures
        !is_dir || !recent || ignored_dir(components(dir@)) ==> views(final(d).found@) == views(
            old(d).found@,
        ),
        is_dir && recent && !ignored_dir(components(dir@)) && !listed_dir(
            views(old(d).found@),
            dir@,
        ) ==> views(final(d).found@) == views(old(d).found@).push(dir@),
{
}

} // verus!
