use cargo_select::select::RunTarget;
use cargo_select::select::Target;
use cargo_select::tui::SessionEvent;
use cargo_select::tui::SessionOutcome;
use cargo_select::tui::SessionState;
use cargo_select::tui::Tui;
use cargo_select::tui::window_suffix;

fn bin_target(name: &str) -> Target {
    Target::Bin(RunTarget {
        name: name.to_string(),
        path: "x".to_string(),
        workspace_path: "w".to_string(),
    })
}

#[test]
fn typing_appends_and_backspace_drops() {
    let mut s = SessionState::new();
    assert_eq!(s.step(SessionEvent::Char('a'), 0), SessionOutcome::Continue);
    assert_eq!(s.step(SessionEvent::Char('b'), 0), SessionOutcome::Continue);
    assert_eq!(s.pattern, "ab");
    assert_eq!(s.step(SessionEvent::Backspace, 0), SessionOutcome::Continue);
    assert_eq!(s.pattern, "a");
    s.step(SessionEvent::Backspace, 0);
    assert_eq!(s.pattern, "");
    // backspace on an empty buffer is a no-op
    s.step(SessionEvent::Backspace, 0);
    assert_eq!(s.pattern, "");
}

#[test]
fn word_delete_pops_through_the_space() {
    let mut s = SessionState::new();
    for c in "foo bar".chars() {
        s.step(SessionEvent::Char(c), 0);
    }
    s.step(SessionEvent::WordDelete, 0);
    assert_eq!(s.pattern, "foo");
    s.step(SessionEvent::WordDelete, 0);
    assert_eq!(s.pattern, "");
    // and on an empty buffer it stays empty
    s.step(SessionEvent::WordDelete, 0);
    assert_eq!(s.pattern, "");
}

#[test]
fn cursor_moves_saturate_at_the_bottom() {
    let mut s = SessionState::new();
    assert_eq!(s.step(SessionEvent::CursorUp, 5), SessionOutcome::Continue);
    assert_eq!(s.cursor, 2);
    s.step(SessionEvent::CursorDown, 5);
    assert_eq!(s.cursor, 1);
    // down from the bottom stays clamped to 1 on the next step
    s.step(SessionEvent::CursorDown, 5);
    assert_eq!(s.cursor, 0);
    s.step(SessionEvent::CursorDown, 5);
    assert_eq!(s.cursor, 0);
}

#[test]
fn cursor_one_selects_last_and_cursor_len_selects_first() {
    let mut s = SessionState::new();
    s.cursor = 1;
    assert_eq!(s.step(SessionEvent::Enter, 4), SessionOutcome::Selected(3));
    let mut s = SessionState::new();
    s.cursor = 4;
    assert_eq!(s.step(SessionEvent::Enter, 4), SessionOutcome::Selected(0));
    // a cursor beyond the list clamps to the list's length
    let mut s = SessionState::new();
    s.cursor = 100;
    assert_eq!(s.step(SessionEvent::Enter, 4), SessionOutcome::Selected(0));
}

#[test]
fn enter_on_empty_view_is_no_match_and_cancel_cancels() {
    let mut s = SessionState::new();
    assert_eq!(s.step(SessionEvent::Enter, 0), SessionOutcome::NoMatch);
    assert_eq!(s.step(SessionEvent::Cancel, 0), SessionOutcome::Cancelled);
    assert_eq!(s.step(SessionEvent::Other, 0), SessionOutcome::Continue);
}

#[test]
fn scenario_empty_targets_empty_pattern() {
    let targets: Vec<Target> = Vec::new();
    let mut s = SessionState::new();
    let view = s.filtered_view(&targets);
    assert!(view.is_empty());
    let windowed = window_suffix(&view, 10);
    assert!(windowed.is_empty());
    assert_eq!(s.step(SessionEvent::Enter, view.len()), SessionOutcome::NoMatch);
}

#[test]
fn empty_pattern_bypasses_the_scorer() {
    let targets = vec![bin_target("zzz"), bin_target("aaa")];
    let s = SessionState::new();
    let view = s.filtered_view(&targets);
    // unfiltered and in input order, however badly "zzz" would score
    assert_eq!(view.len(), 2);
    assert_eq!(view[0].display_string(), targets[0].display_string());
    assert_eq!(view[1].display_string(), targets[1].display_string());
}

#[test]
fn window_is_a_suffix_of_length_min_v_h_minus_1() {
    let targets = vec![bin_target("a"), bin_target("b"), bin_target("c"), bin_target("d"), bin_target("e")];
    let s = SessionState::new();
    let view = s.filtered_view(&targets);
    // plenty of room: everything shows
    assert_eq!(window_suffix(&view, 10).len(), 5);
    // three rows: one for input, two list rows, and they are the last two
    let w = window_suffix(&view, 3);
    assert_eq!(w.len(), 2);
    assert_eq!(w[0].display_string(), targets[3].display_string());
    assert_eq!(w[1].display_string(), targets[4].display_string());
    // degenerate terminals show no list rows
    assert_eq!(window_suffix(&view, 1).len(), 0);
    assert_eq!(window_suffix(&view, 0).len(), 0);
}

#[test]
fn frame_rows_are_padding_window_and_input_line() {
    let targets = vec![bin_target("a"), bin_target("b")];
    let s = SessionState::new();
    let view = s.filtered_view(&targets);
    let w = window_suffix(&view, 6);
    let rows = Tui::ui(&w, &"pat".to_string(), 6);
    assert_eq!(rows.len(), 6);
    assert_eq!(rows[0], "");
    assert_eq!(rows[1], "");
    assert_eq!(rows[2], "");
    assert_eq!(rows[3], targets[0].display_string());
    assert_eq!(rows[4], targets[1].display_string());
    assert_eq!(rows[5], "pat");
}
