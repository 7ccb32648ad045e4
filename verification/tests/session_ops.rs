use decruft::age_filter::AgeFilter;
use decruft::scanner::{CruftDirectory, CruftyReason};
use decruft::session::{position_of_path, AppState, SessionAction, SessionCommand};
use decruft::size_filter::SizeFilter;
use decruft::sort_order::SortOrder;
use decruft::type_filter::TypeFilter;

fn entry(path: &str) -> CruftDirectory {
    CruftDirectory {
        path: String::from(path),
        size: 2_000_000,
        crufty_reason: CruftyReason::BuildDir,
        newest_file_age_days: Some(10),
    }
}

fn three() -> Vec<CruftDirectory> {
    vec![entry("/a"), entry("/b"), entry("/c")]
}

#[test]
fn new_state_has_the_defaults() {
    let s = AppState::new();
    assert_eq!(s.selected_path, None);
    assert_eq!(s.confirm_delete, None);
    assert_eq!(s.size_filter, SizeFilter::SkipSmall);
    assert_eq!(s.age_filter, AgeFilter::NoLimit);
    assert_eq!(s.sort_order, SortOrder::SizeDescending);
    assert_eq!(s.type_filter, TypeFilter::CommonOnly);
    assert!(!s.scan_complete);
    assert_eq!(s.spinner_frame, 0);
}

#[test]
fn navigation_selects_first_then_steps() {
    let view = three();
    let mut s = AppState::new();
    s.select_next_or_previous(&view, true);
    assert_eq!(s.selected_path, Some(String::from("/a")));
    s.select_next_or_previous(&view, true);
    assert_eq!(s.selected_path, Some(String::from("/b")));
    s.select_next_or_previous(&view, false);
    assert_eq!(s.selected_path, Some(String::from("/a")));
}

#[test]
fn navigation_clamps_at_the_ends() {
    let view = three();
    let mut s = AppState::new();
    s.select_next_or_previous(&view, false);
    assert_eq!(s.selected_path, Some(String::from("/a")));
    // Stepping back at the top stays at the top.
    s.select_next_or_previous(&view, false);
    assert_eq!(s.selected_path, Some(String::from("/a")));
    for _ in 0..10 {
        s.select_next_or_previous(&view, true);
    }
    // Stepping forward at the bottom stays at the bottom.
    assert_eq!(s.selected_path, Some(String::from("/c")));
}

#[test]
fn navigation_on_empty_view_does_nothing() {
    let mut s = AppState::new();
    s.select_next_or_previous(&Vec::new(), true);
    assert_eq!(s.selected_path, None);
}

#[test]
fn update_selection_keeps_present_path() {
    let view = three();
    let mut s = AppState::new();
    s.selected_path = Some(String::from("/b"));
    s.update_selection(&view);
    assert_eq!(s.selected_path, Some(String::from("/b")));
}

#[test]
fn update_selection_falls_back_to_first() {
    let view = three();
    let mut s = AppState::new();
    s.selected_path = Some(String::from("/vanished"));
    s.update_selection(&view);
    assert_eq!(s.selected_path, Some(String::from("/a")));
    s.update_selection(&Vec::new());
    assert_eq!(s.selected_path, None);
}

#[test]
fn spinner_wraps_at_eight() {
    let mut s = AppState::new();
    for expected in [1, 2, 3, 4, 5, 6, 7, 0, 1] {
        s.update_spinner();
        assert_eq!(s.spinner_frame, expected);
    }
}

#[test]
fn toggles_cycle_their_filters() {
    let mut s = AppState::new();
    let view = Vec::new();
    s.handle_action(&view, SessionAction::ToggleSkipSmall);
    assert_eq!(s.size_filter, SizeFilter::ShowAll);
    s.handle_action(&view, SessionAction::ToggleOldDirs);
    assert_eq!(s.age_filter, AgeFilter::Days90);
    s.handle_action(&view, SessionAction::ToggleSortOrder);
    assert_eq!(s.sort_order, SortOrder::AgeDescending);
    s.handle_action(&view, SessionAction::ToggleAllTypes);
    assert_eq!(s.type_filter, TypeFilter::AllTypes);
}

#[test]
fn quit_is_legal_only_while_browsing() {
    let view = three();
    let mut s = AppState::new();
    let cmd = s.handle_action(&view, SessionAction::Quit);
    assert!(matches!(cmd, SessionCommand::Quit));
    s.handle_action(&view, SessionAction::SelectNext);
    s.handle_action(&view, SessionAction::RequestDelete);
    // With a confirmation pending, quit (like any other key but confirm
    // and cancel) does nothing.
    let cmd = s.handle_action(&view, SessionAction::Quit);
    assert!(matches!(cmd, SessionCommand::Continue));
    assert_eq!(s.confirm_delete, Some(String::from("/a")));
}

#[test]
fn request_delete_without_selection_does_nothing() {
    let view = three();
    let mut s = AppState::new();
    let cmd = s.handle_action(&view, SessionAction::RequestDelete);
    assert!(matches!(cmd, SessionCommand::Continue));
    assert_eq!(s.confirm_delete, None);
}

#[test]
fn delete_now_bypasses_confirmation() {
    let view = three();
    let mut s = AppState::new();
    s.handle_action(&view, SessionAction::SelectNext);
    let cmd = s.handle_action(&view, SessionAction::DeleteNow);
    match cmd {
        SessionCommand::Delete(p) => assert_eq!(p, "/a"),
        _ => panic!("expected a deletion command"),
    }
    assert_eq!(s.confirm_delete, None);
}

#[test]
fn filter_cycling_is_ignored_while_confirming() {
    let view = three();
    let mut s = AppState::new();
    s.handle_action(&view, SessionAction::SelectNext);
    s.handle_action(&view, SessionAction::RequestDelete);
    s.handle_action(&view, SessionAction::ToggleSortOrder);
    assert_eq!(s.sort_order, SortOrder::SizeDescending);
    s.handle_action(&view, SessionAction::Cancel);
    s.handle_action(&view, SessionAction::ToggleSortOrder);
    assert_eq!(s.sort_order, SortOrder::AgeDescending);
}

#[test]
fn position_of_path_finds_the_first_match() {
    let view = three();
    assert_eq!(position_of_path(&view, &String::from("/b")), Some(1));
    assert_eq!(position_of_path(&view, &String::from("/nope")), None);
}

#[test]
fn mark_scan_complete_sets_the_flag() {
    let mut s = AppState::new();
    s.mark_scan_complete();
    assert!(s.scan_complete);
}
