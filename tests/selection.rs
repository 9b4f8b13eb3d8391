use fzk::session::Session;
use fzk::{match_by_pid, Action, Input, Intent, Selection};

fn at(s: &Selection) -> (usize, usize) {
    (s.scroll_offset, s.pointer)
}

#[test]
fn thirty_rows_in_ten_row_viewport() {
    let mut s = Selection::new();
    for _ in 0..9 {
        s.apply(Intent::MoveDown, 30, 10);
    }
    // Moving down scrolls first while rows lie below the viewport.
    assert_eq!(at(&s), (9, 0));
    s.apply(Intent::MoveDown, 30, 10);
    assert_eq!(at(&s), (10, 0));
    for _ in 0..20 {
        s.apply(Intent::MoveDown, 30, 10);
    }
    assert_eq!(at(&s), (20, 9));
    s.apply(Intent::MoveDown, 30, 10);
    assert_eq!(at(&s), (20, 9));
    assert_eq!(s.selected(30, 10), Some(29));
}

#[test]
fn moving_up_unscrolls_then_moves_pointer() {
    let mut s = Selection { scroll_offset: 2, pointer: 3 };
    s.apply(Intent::MoveUp, 30, 10);
    assert_eq!(at(&s), (1, 3));
    s.apply(Intent::MoveUp, 30, 10);
    s.apply(Intent::MoveUp, 30, 10);
    assert_eq!(at(&s), (0, 2));
    for _ in 0..5 {
        s.apply(Intent::MoveUp, 30, 10);
    }
    assert_eq!(at(&s), (0, 0));
}

#[test]
fn selection_stays_valid_when_list_shrinks_or_empties() {
    let mut s = Selection { scroll_offset: 20, pointer: 9 };
    s.apply(Intent::Refit, 12, 10);
    assert_eq!(at(&s), (2, 9));
    assert_eq!(s.selected(12, 10), Some(11));
    s.apply(Intent::MoveDown, 5, 10);
    assert_eq!(at(&s), (0, 4));
    s.apply(Intent::MoveUp, 0, 10);
    assert_eq!(at(&s), (0, 0));
    assert_eq!(s.selected(0, 10), None);
    s.apply(Intent::MoveDown, 3, 0);
    assert_eq!(at(&s), (1, 0));
    assert_eq!(s.visible_rows(3, 0), (1, 1));
}

#[test]
fn query_change_and_reset_go_to_top() {
    let mut s = Selection { scroll_offset: 4, pointer: 2 };
    s.apply(Intent::QueryChanged, 30, 10);
    assert_eq!(at(&s), (0, 0));
    let mut s = Selection { scroll_offset: 4, pointer: 2 };
    s.apply(Intent::ResetScroll, 30, 10);
    assert_eq!(at(&s), (0, 0));
}

#[test]
fn visible_rows_follow_scroll() {
    let s = Selection { scroll_offset: 25, pointer: 0 };
    assert_eq!(s.visible_rows(30, 10), (20, 10));
    assert_eq!(s.visible_rows(4, 10), (0, 4));
}

#[test]
fn pid_mode_follows_first_character() {
    assert!(match_by_pid("42"));
    assert!(match_by_pid("4x"));
    assert!(!match_by_pid("x4"));
    assert!(!match_by_pid(""));
}

#[test]
fn session_typing_resets_selection_and_kill_targets_selected_row() {
    let mut s = Session::new();
    assert_eq!(s.handle(Input::Down, 30, 10), Action::Continue);
    assert_eq!(s.handle(Input::Down, 30, 10), Action::Continue);
    assert_eq!(s.handle(Input::KillSelected, 30, 10), Action::Kill(2));
    s.handle(Input::Char('c'), 30, 10);
    s.handle(Input::Char('h'), 30, 10);
    assert_eq!(s.query(), "ch");
    assert_eq!(at(&s.selection()), (0, 0));
    s.handle(Input::Backspace, 30, 10);
    assert_eq!(s.query(), "c");
    s.handle(Input::ClearQuery, 30, 10);
    assert_eq!(s.query(), "");
    assert_eq!(s.handle(Input::KillSelected, 0, 10), Action::Continue);
    s.handle(Input::ToggleHelp, 0, 10);
    assert!(s.show_help());
    assert_eq!(s.handle(Input::Quit, 0, 10), Action::Quit);
}

#[test]
fn clearing_an_empty_query_keeps_selection() {
    let mut s = Session::new();
    s.handle(Input::Down, 30, 10);
    s.handle(Input::ClearQuery, 30, 10);
    assert_eq!(at(&s.selection()), (1, 0));
    s.handle(Input::ResetScroll, 30, 10);
    assert_eq!(at(&s.selection()), (0, 0));
    s.handle(Input::Up, 30, 10);
    assert_eq!(at(&s.selection()), (0, 0));
    s.refit(0, 10);
    assert_eq!(at(&s.selection()), (0, 0));
}
