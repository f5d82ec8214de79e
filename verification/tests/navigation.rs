use cutty::input::{key_action, viewport_page_lines, KeyAction, KeyInput, Modifiers, NamedKey, SelectionMove};
use cutty::navigation::{caret_index, scroll_viewport_lines, KeyboardSelection};
use cutty::selection::{SelectionState, StableCellPos};
use cutty::terminal::color::{background_runs, default_bg, indexed_color};
use cutty::terminal::{TerminalColor, TerminalState};

fn mods(shift: bool, control: bool, alt: bool, super_key: bool) -> Modifiers {
    Modifiers { shift, control, alt, super_key }
}

#[test]
fn key_presses_choose_actions_in_order() {
    let shift = mods(true, false, false, false);
    assert_eq!(
        key_action(&KeyInput::Named(NamedKey::ArrowRight), shift, false),
        KeyAction::MoveSelection(SelectionMove::Right)
    );
    assert_eq!(key_action(&KeyInput::Named(NamedKey::PageUp), shift, false), KeyAction::ScrollPage(1));
    assert_eq!(key_action(&KeyInput::Character("c".into()), mods(true, true, false, false), false), KeyAction::Copy);
    assert_eq!(key_action(&KeyInput::Character("v".into()), mods(false, false, false, true), true), KeyAction::Paste);
    assert_eq!(key_action(&KeyInput::Character("=".into()), mods(false, false, false, true), false), KeyAction::FontIncrease);
    assert_eq!(key_action(&KeyInput::Character("_".into()), mods(false, false, false, true), false), KeyAction::FontDecrease);
    assert_eq!(key_action(&KeyInput::Character("a".into()), Modifiers::default(), false), KeyAction::Input);
    assert_eq!(key_action(&KeyInput::Named(NamedKey::PageUp), Modifiers::default(), false), KeyAction::Input);
}

#[test]
fn page_scroll_moves_a_screen_but_one_line() {
    assert_eq!(viewport_page_lines(24, 1), 23);
    assert_eq!(viewport_page_lines(24, -1), -23);
    assert_eq!(viewport_page_lines(1, 1), 1);
    assert_eq!(viewport_page_lines(0, -1), -1);
    assert_eq!(viewport_page_lines(u16::MAX, i32::MAX), i32::MAX);
    assert_eq!(viewport_page_lines(u16::MAX, i32::MIN), i32::MIN);
}

#[test]
fn caret_index_counts_cells_row_by_row() {
    let mut terminal = TerminalState::new(3, 10, 0);
    assert_eq!(caret_index(&terminal), 0);
    terminal.set_cursor_position(2, 4);
    assert_eq!(caret_index(&terminal), 24);
}

#[test]
fn keyboard_selection_grows_from_the_cursor() {
    let mut terminal = TerminalState::new(2, 10, 0);
    for ch in "hello world".chars() {
        terminal.print(ch);
    }
    terminal.set_cursor_position(0, 0);
    let mut keys = KeyboardSelection::default();
    let mut selection = SelectionState::default();
    assert_eq!(keys.apply(&terminal, &mut selection, SelectionMove::WordRight), (0, 5));
    let range = selection.range().expect("range");
    assert_eq!(range.start, StableCellPos { row: 0, col: 0 });
    assert_eq!(range.end, StableCellPos { row: 0, col: 4 });
    assert_eq!(selection.selection_text(&terminal), Some("hello".to_string()));
    assert_eq!(keys.apply(&terminal, &mut selection, SelectionMove::Left), (0, 4));
    assert_eq!(selection.selection_text(&terminal), Some("hell".to_string()));
    keys.apply(&terminal, &mut selection, SelectionMove::Home);
    assert!(selection.range().is_none());
    keys.reset();
    assert_eq!(keys, KeyboardSelection::default());
}

#[test]
fn viewport_scrolls_by_sign() {
    let mut terminal = TerminalState::new(2, 5, 10);
    for _ in 0..6 {
        terminal.linefeed();
    }
    let bottom = terminal.viewport_top();
    assert!(!scroll_viewport_lines(&mut terminal, 0));
    assert!(scroll_viewport_lines(&mut terminal, 2));
    assert_eq!(terminal.viewport_top(), bottom - 2);
    assert!(scroll_viewport_lines(&mut terminal, -100));
    assert_eq!(terminal.viewport_top(), bottom);
    assert!(!scroll_viewport_lines(&mut terminal, -1));
}

#[test]
fn background_runs_gather_equal_colours() {
    let mut terminal = TerminalState::new(1, 8, 0);
    terminal.set_cursor_col(2);
    terminal.set_bg(TerminalColor::Indexed(1));
    terminal.print('a');
    terminal.print('b');
    terminal.set_bg(TerminalColor::Indexed(4));
    terminal.print('c');
    let runs = background_runs(&terminal, 0, 8);
    assert_eq!(runs, vec![(2, 4, indexed_color(1)), (4, 5, indexed_color(4))]);
    let plain = TerminalState::new(1, 8, 0);
    assert!(background_runs(&plain, 0, 8).is_empty());
    assert_ne!(indexed_color(1), default_bg());
}
