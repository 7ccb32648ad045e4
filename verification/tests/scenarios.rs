use decruft::registry::Registry;
use decruft::scanner::CruftyReason;
use decruft::session::{apply_delete_outcome, AppState, SessionAction, SessionCommand};
use decruft::walker::{scan_directories, FsDir, FsFile};

fn file(name: &str, size: u64, age: Option<u64>) -> FsFile {
    FsFile { name: String::from(name), size, age_days: age }
}

fn dir(name: &str, age: Option<u64>, files: Vec<FsFile>, subdirs: Vec<FsDir>) -> FsDir {
    FsDir { name: String::from(name), age_days: age, files, subdirs }
}

/// A tree with `./app/node_modules` (10 MB over 5 files, newest 2 days
/// old) and `./app/dist` (2 MB, newest 200 days old).
fn sample_tree() -> FsDir {
    let two_mb: u64 = 2 * 1_048_576;
    let node_modules = dir(
        "node_modules",
        Some(2),
        vec![
            file("a.js", two_mb, Some(30)),
            file("b.js", two_mb, Some(2)),
            file("c.js", two_mb, Some(14)),
            file("d.js", two_mb, Some(60)),
            file("e.js", two_mb, Some(7)),
        ],
        vec![],
    );
    let dist = dir("dist", Some(200), vec![file("bundle.js", two_mb, Some(200))], vec![]);
    let app = dir("app", Some(1), vec![], vec![node_modules, dist]);
    dir(".", Some(1), vec![], vec![app])
}

fn scanned_registry() -> Registry {
    let mut reg = Registry::new();
    scan_directories(&sample_tree(), &String::from("."), 3, &mut reg);
    reg
}

#[test]
fn sample_tree_scan_measures_both_entries() {
    let reg = scanned_registry();
    let snap = reg.snapshot();
    assert_eq!(snap.len(), 2);
    let nm = snap.iter().find(|e| e.path == "./app/node_modules").unwrap();
    assert_eq!(nm.crufty_reason, CruftyReason::NodeModules);
    assert_eq!(nm.size, 10 * 1_048_576);
    assert_eq!(nm.newest_file_age_days, Some(2));
    let dist = snap.iter().find(|e| e.path == "./app/dist").unwrap();
    assert_eq!(dist.crufty_reason, CruftyReason::DistDir);
    assert_eq!(dist.size, 2 * 1_048_576);
    assert_eq!(dist.newest_file_age_days, Some(200));
}

#[test]
fn default_view_sorts_by_size_descending() {
    let reg = scanned_registry();
    let mut state = AppState::new();
    // Under the default common-types-only filter the dist entry is an
    // uncommon type; including all types shows both. Both clear the
    // one-megabyte size threshold.
    let default_view = state.view(&reg.snapshot());
    assert_eq!(default_view.len(), 1);
    assert_eq!(default_view[0].path, "./app/node_modules");
    state.handle_action(&default_view, SessionAction::ToggleAllTypes);
    let view = state.view(&reg.snapshot());
    assert_eq!(view.len(), 2);
    assert_eq!(view[0].path, "./app/node_modules");
    assert_eq!(view[1].path, "./app/dist");
}

#[test]
fn age_filter_at_ninety_days_keeps_only_dist() {
    let reg = scanned_registry();
    let mut state = AppState::new();
    let view0 = state.view(&reg.snapshot());
    state.handle_action(&view0, SessionAction::ToggleAllTypes);
    // One cycle of the age filter: from no limit to 90 days.
    state.handle_action(&view0, SessionAction::ToggleOldDirs);
    let view = state.view(&reg.snapshot());
    assert_eq!(view.len(), 1);
    assert_eq!(view[0].path, "./app/dist");
}

#[test]
fn confirmed_deletion_removes_entry_and_moves_selection() {
    let mut reg = scanned_registry();
    let mut state = AppState::new();
    state.handle_action(&Vec::new(), SessionAction::ToggleAllTypes);
    let view = state.view(&reg.snapshot());
    assert_eq!(view.len(), 2);
    // Move the selection onto `./app/dist` (second row).
    state.handle_action(&view, SessionAction::SelectNext);
    state.handle_action(&view, SessionAction::SelectNext);
    assert_eq!(state.selected_path, Some(String::from("./app/dist")));
    // Request deletion, then confirm it.
    let cmd = state.handle_action(&view, SessionAction::RequestDelete);
    assert!(matches!(cmd, SessionCommand::Continue));
    assert_eq!(state.confirm_delete, Some(String::from("./app/dist")));
    let cmd = state.handle_action(&view, SessionAction::Confirm);
    let target = match cmd {
        SessionCommand::Delete(p) => p,
        _ => panic!("expected a deletion command"),
    };
    assert_eq!(target, "./app/dist");
    assert_eq!(state.confirm_delete, None);
    // The filesystem removal succeeded; the registry follows.
    let removed = apply_delete_outcome(&mut reg, &target, true);
    assert!(removed);
    assert!(!reg.contains_path(&String::from("./app/dist")));
    // Selection falls back to the remaining entry.
    let view = state.view(&reg.snapshot());
    state.update_selection(&view);
    assert_eq!(state.selected_path, Some(String::from("./app/node_modules")));
}

#[test]
fn cancelled_deletion_changes_nothing() {
    let mut reg = scanned_registry();
    let mut state = AppState::new();
    state.handle_action(&Vec::new(), SessionAction::ToggleAllTypes);
    let view = state.view(&reg.snapshot());
    state.handle_action(&view, SessionAction::SelectNext);
    state.handle_action(&view, SessionAction::RequestDelete);
    let cmd = state.handle_action(&view, SessionAction::Cancel);
    assert!(matches!(cmd, SessionCommand::Continue));
    assert_eq!(state.confirm_delete, None);
    assert_eq!(reg.entry_count(), 2);
}
