use eir_svc::signals::discovery::{
    configured_watch_dirs, has_recent_log_files, path_comes_first, sort_paths, CheckedDir,
    Discovery, FoundEntry, MAX_DISCOVERY_ENTRIES_PER_ROOT,
};
use eir_svc::signals::file_watch::MAX_AUTO_WATCH_DIRS;

fn checked(path: &str, is_dir: bool, too_broad: bool) -> Option<CheckedDir> {
    Some(CheckedDir {
        path: path.to_string(),
        is_dir,
        too_broad,
    })
}

#[test]
fn configured_watch_dirs_reject_drive_roots_and_traversal() {
    assert!(configured_watch_dirs(&vec![checked("C:\\", true, true)]).is_empty());
    assert!(configured_watch_dirs(&vec![None]).is_empty());
    assert!(configured_watch_dirs(&vec![checked("C:\\x.log", false, false)]).is_empty());
}

#[test]
fn configured_directories_come_once_and_in_order() {
    assert_eq!(
        configured_watch_dirs(&vec![
            checked(r"C:\b", true, false),
            None,
            checked(r"C:\a\x", true, false),
            checked(r"C:\a b", true, false),
            checked(r"C:/b/", true, false),
        ]),
        [r"C:\a\x", r"C:\a b", r"C:\b"]
    );
}

#[test]
fn paths_are_ordered_by_their_components() {
    let list = |texts: &[&str]| texts.iter().map(|t| t.to_string()).collect::<Vec<String>>();
    assert_eq!(
        sort_paths(list(&[r"D:\", r"C:\a-b", r"C:\a\b", r"\\?\C:\z", "rel", r"C:\a"])),
        [r"\\?\C:\z", r"C:\a", r"C:\a\b", r"C:\a-b", r"D:\", "rel"]
    );
    assert!(path_comes_first(r"\\ab\x", r"\\ab-c\x"));
    assert!(!path_comes_first(r"\\ab-c\x", r"\\ab\x"));
    assert!(!path_comes_first(r"\\?\UNC\a/b", r"\\?\UNC\a\b"));
    assert!(path_comes_first(r"\\?\UNC\a\b", r"\\?\UNC\a/b"));
    assert!(path_comes_first(r"\\?\UNC\a", r"\\?\UNC\a\1"));
    assert!(!path_comes_first(r"\\?\UNC\a\1", r"\\?\UNC\a"));
    assert!(path_comes_first(r"\\?\a-b", r"\\?\a/b"));
}

fn found(path: &str, modified: Option<u64>, late: bool) -> FoundEntry {
    FoundEntry {
        late,
        readable: true,
        is_file: true,
        path: path.to_string(),
        modified,
    }
}

#[test]
fn discovery_stops_at_its_deadline() {
    let recent = |late: bool| vec![found("recent.log", Some(1), late)];
    assert!(!has_recent_log_files(&recent(true), 0));
    assert!(has_recent_log_files(&recent(false), 0));
}

#[test]
fn the_first_entries_show_whether_logs_are_written() {
    let shows = |entries: Vec<FoundEntry>| has_recent_log_files(&entries, 100);
    assert!(!shows(vec![]));
    assert!(!shows(vec![found("old.log", Some(100), false)]));
    assert!(!shows(vec![found("unknown.log", None, false)]));
    assert!(!shows(vec![found("state.json", Some(101), false)]));
    assert!(shows(vec![
        found("old.log", Some(1), false),
        found("NEW.LOG", Some(101), false),
        found("never.log", Some(1), true),
    ]));
    assert!(!shows(vec![
        found("old.log", Some(1), true),
        found("new.log", Some(101), false),
    ]));
    let mut folder = found("folder.log", Some(101), false);
    folder.is_file = false;
    let mut locked = found("locked.log", Some(101), false);
    locked.readable = false;
    assert!(!shows(vec![folder, locked]));
    let after = |others: usize| {
        let mut entries: Vec<FoundEntry> =
            (0..others).map(|_| found("a.json", Some(101), false)).collect();
        entries.push(found("new.log", Some(101), false));
        shows(entries)
    };
    assert!(after(MAX_DISCOVERY_ENTRIES_PER_ROOT - 1));
    assert!(!after(MAX_DISCOVERY_ENTRIES_PER_ROOT));
}

#[test]
fn a_search_keeps_active_directories_up_to_a_bound() {
    let mut search = Discovery::new();
    assert!(search.goes_on(false));
    assert!(!search.goes_on(true));
    assert!(search.note_root(r"C:\Logs", true, false, true));
    assert!(search.note_root(r"C:\Quiet", true, false, false));
    assert!(!search.note_root(r"C:\", true, true, true), "too broad");
    assert!(!search.note_root(r"C:\x.log", false, false, true));
    search.note_subdir(r"C:\Logs\app", true, true);
    search.note_subdir(r"C:\Logs\Eir", true, true);
    search.note_subdir(r"C:\Logs\x.log", false, true);
    search.note_subdir(r"c:\Logs\app", true, true);
    assert_eq!(search.found, [r"C:\Logs", r"C:\Logs\app"]);
    assert_eq!(
        search.finish(vec![r"C:\Apps".to_string(), r"C:\Logs\".to_string()]),
        [r"C:\Apps", r"C:\Logs", r"C:\Logs\app"]
    );
    let mut full = Discovery::new();
    for n in 0..MAX_AUTO_WATCH_DIRS {
        assert!(full.goes_on(false));
        full.note_subdir(&format!(r"C:\Logs\{n}"), true, true);
    }
    assert!(!full.goes_on(false));
}
