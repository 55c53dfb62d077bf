use exek::entry::{AppEntry, EntryKind};
use exek::path_completion::PathCompletion;
use exek::search::SearchResult;
use exek::session::{calculate_scroll_offset, AppState, SearchMode, SessionAction, SessionEvent};

fn result(name: &str) -> SearchResult {
    SearchResult {
        app: AppEntry {
            name: name.to_string(),
            exec_line: name.to_lowercase(),
            icon: None,
            comment: None,
            categories: Vec::new(),
            desktop_file: String::new(),
            terminal: false,
            kind: EntryKind::Application,
        },
        score: 0,
        frecency: 0,
    }
}

fn apps(n: usize) -> SearchMode {
    SearchMode::Applications((0..n).map(|i| result(&format!("App{}", i))).collect())
}

fn completion(display: &str, is_dir: bool) -> PathCompletion {
    PathCompletion { path: display.to_string(), display_name: display.to_string(), is_dir }
}

fn check_invariant(s: &AppState, height: usize) {
    let count = s.results_count();
    assert!(s.selected_index < count.max(1));
    assert!(s.scroll_offset <= s.selected_index);
    assert!(s.selected_index < s.scroll_offset + height);
    assert!(s.cursor_position <= s.query.chars().count());
}

#[test]
fn new_session_is_empty() {
    let s = AppState::new();
    assert_eq!(s.query, "");
    assert_eq!(s.results_count(), 0);
    assert!(s.get_selected_app().is_none());
    assert!(s.get_selected_path().is_none());
}

#[test]
fn typing_edits_at_the_cursor() {
    let mut s = AppState::new();
    assert_eq!(s.handle_event(SessionEvent::Insert('f'), 5), SessionAction::Refresh { path_query: false });
    s.handle_event(SessionEvent::Insert('x'), 5);
    s.handle_event(SessionEvent::Left, 5);
    s.handle_event(SessionEvent::Insert('é'), 5);
    assert_eq!(s.query, "féx");
    assert_eq!(s.cursor_position, 2);
    assert_eq!(s.handle_event(SessionEvent::Backspace, 5), SessionAction::Refresh { path_query: false });
    assert_eq!(s.query, "fx");
    assert_eq!(s.cursor_position, 1);
    assert_eq!(s.handle_event(SessionEvent::Delete, 5), SessionAction::Refresh { path_query: false });
    assert_eq!(s.query, "f");
    assert_eq!(s.handle_event(SessionEvent::Delete, 5), SessionAction::Stay);
    s.handle_event(SessionEvent::Home, 5);
    assert_eq!(s.cursor_position, 0);
    assert_eq!(s.handle_event(SessionEvent::Backspace, 5), SessionAction::Stay);
    assert_eq!(s.handle_event(SessionEvent::Insert('/'), 5), SessionAction::Refresh { path_query: true });
    assert_eq!(s.query, "/f");
    s.handle_event(SessionEvent::End, 5);
    assert_eq!(s.cursor_position, 2);
    s.handle_event(SessionEvent::Right, 5);
    assert_eq!(s.cursor_position, 2);
}

#[test]
fn navigation_keeps_the_selection_visible() {
    let mut s = AppState::new();
    s.set_mode(apps(10));
    let h = 3;
    for _ in 0..12 {
        s.handle_event(SessionEvent::Down, h);
        check_invariant(&s, h);
    }
    assert_eq!(s.selected_index, 9);
    assert_eq!(s.scroll_offset, 7);
    s.handle_event(SessionEvent::PageUp, h);
    assert_eq!(s.selected_index, 6);
    assert_eq!(s.scroll_offset, 6);
    s.handle_event(SessionEvent::PageUp, h);
    s.handle_event(SessionEvent::PageUp, h);
    assert_eq!(s.selected_index, 0);
    assert_eq!(s.scroll_offset, 0);
    s.handle_event(SessionEvent::PageDown, h);
    assert_eq!(s.selected_index, 3);
    assert_eq!(s.scroll_offset, 1);
    s.handle_event(SessionEvent::Up, h);
    assert_eq!(s.selected_index, 2);
    check_invariant(&s, h);
    s.handle_event(SessionEvent::Insert('a'), h);
    assert_eq!(s.selected_index, 0);
    assert_eq!(s.scroll_offset, 0);
}

#[test]
fn navigation_on_an_empty_list_stays_at_zero() {
    let mut s = AppState::new();
    for e in [SessionEvent::Down, SessionEvent::PageDown, SessionEvent::Up, SessionEvent::PageUp] {
        assert_eq!(s.handle_event(e, 4), SessionAction::Stay);
        assert_eq!(s.selected_index, 0);
        assert_eq!(s.scroll_offset, 0);
    }
    assert_eq!(s.handle_event(SessionEvent::Confirm, 4), SessionAction::Stay);
}

#[test]
fn confirm_launches_the_selected_app() {
    let mut s = AppState::new();
    s.set_mode(apps(3));
    s.handle_event(SessionEvent::Down, 5);
    assert_eq!(s.handle_event(SessionEvent::Confirm, 5), SessionAction::LaunchApp(1));
    assert_eq!(s.get_selected_app().unwrap().app.name, "App1");
    assert_eq!(s.handle_event(SessionEvent::Accept, 5), SessionAction::Stay);
    assert_eq!(s.handle_event(SessionEvent::Cancel, 5), SessionAction::Quit);
}

#[test]
fn accepting_a_directory_descends() {
    let mut s = AppState::new();
    for c in "~/Doc".chars() {
        s.handle_event(SessionEvent::Insert(c), 5);
    }
    s.set_mode(SearchMode::Paths(vec![completion("~/Documents", true), completion("~/Docker", false)]));
    assert_eq!(s.handle_event(SessionEvent::Accept, 5), SessionAction::Refresh { path_query: true });
    assert_eq!(s.query, "~/Documents/");
    assert_eq!(s.cursor_position, 12);
    assert_eq!(s.selected_index, 0);
}

#[test]
fn confirm_on_paths() {
    let mut s = AppState::new();
    s.set_mode(SearchMode::Paths(vec![completion("/usr", true), completion("/usr/bin/env", false)]));
    s.handle_event(SessionEvent::Down, 5);
    assert_eq!(s.get_selected_path().unwrap().display_name, "/usr/bin/env");
    assert_eq!(s.handle_event(SessionEvent::Confirm, 5), SessionAction::LaunchPath(1));
    s.handle_event(SessionEvent::Up, 5);
    assert_eq!(s.handle_event(SessionEvent::Confirm, 5), SessionAction::Refresh { path_query: true });
    assert_eq!(s.query, "/usr/");
}

#[test]
fn selection_methods() {
    let mut s = AppState::new();
    s.set_mode(apps(30));
    s.move_selection_page_down(10);
    assert_eq!(s.selected_index, 10);
    s.move_selection_page_down(100);
    assert_eq!(s.selected_index, 29);
    s.adjust_scroll(8);
    assert_eq!(s.scroll_offset, 22);
    s.move_selection_page_up(25);
    assert_eq!(s.selected_index, 4);
    assert_eq!(s.scroll_offset, 4);
    s.move_selection_up();
    assert_eq!(s.selected_index, 3);
    assert_eq!(s.scroll_offset, 3);
    s.move_selection_down();
    assert_eq!(s.selected_index, 4);
    s.reset_selection();
    assert_eq!(s.selected_index, 0);
    assert_eq!(s.scroll_offset, 0);
}

#[test]
fn scroll_offset_formula() {
    assert_eq!(calculate_scroll_offset(0, 0, 5), 0);
    assert_eq!(calculate_scroll_offset(7, 0, 5), 3);
    assert_eq!(calculate_scroll_offset(2, 4, 5), 2);
    assert_eq!(calculate_scroll_offset(6, 4, 5), 4);
    assert_eq!(calculate_scroll_offset(9, 4, 5), 5);
    assert_eq!(calculate_scroll_offset(3, 0, 1), 3);
}
