use cutty::grid::{Line, RowStorage};
use cutty::navigation::cell_pos_from_linear;
use cutty::selection::{SelectionState, StableCellPos};
use cutty::terminal::line::wrap_logical_row;
use cutty::terminal::{CellAttributes, MouseTrackingMode, TerminalCell, TerminalColor, TerminalState};

fn print_text(terminal: &mut TerminalState, text: &str) {
    for ch in text.chars() {
        terminal.print(ch);
    }
}

fn row_text(terminal: &TerminalState, row: u16, cols: u16) -> String {
    terminal.visible_row(row).expect("row").text_range(0, cols)
}

#[test]
fn alternate_screen_round_trip_restores_cursor_and_attributes() {
    let mut terminal = TerminalState::new(4, 10, 16);
    print_text(&mut terminal, "main");
    terminal.set_fg(TerminalColor::Indexed(3));
    terminal.set_cursor_position(2, 5);
    let attrs_before: CellAttributes = terminal.cell(0, 0).expect("cell").attrs_value();

    terminal.set_private_mode(1049, true);
    print_text(&mut terminal, "alt");
    terminal.set_fg(TerminalColor::Indexed(1));
    terminal.set_private_mode(1049, false);

    assert_eq!(terminal.cursor_position(), (2, 5));
    assert_eq!(row_text(&terminal, 0, 4), "main");
    assert_eq!(terminal.cell(0, 0).expect("cell").attrs_value(), attrs_before);
    print_text(&mut terminal, "x");
    assert_eq!(terminal.cell(2, 5).expect("cell").fgcolor(), TerminalColor::Indexed(3));
}

#[test]
fn alternate_screen_47_keeps_primary_cursor_untouched() {
    let mut terminal = TerminalState::new(4, 10, 16);
    print_text(&mut terminal, "abc");
    terminal.set_private_mode(47, true);
    terminal.set_cursor_position(3, 3);
    terminal.set_private_mode(47, false);
    assert_eq!(terminal.cursor_position(), (0, 3));
    assert_eq!(row_text(&terminal, 0, 3), "abc");
}

#[test]
fn save_then_restore_cursor_brings_back_position_and_attributes() {
    let mut terminal = TerminalState::new(5, 20, 0);
    terminal.set_cursor_position(3, 7);
    terminal.set_bold(true);
    terminal.save_cursor();
    terminal.set_cursor_position(0, 0);
    terminal.set_bold(false);
    terminal.restore_cursor();
    assert_eq!(terminal.cursor_position(), (3, 7));
    print_text(&mut terminal, "b");
    assert!(terminal.cell(3, 7).expect("cell").bold());
}

#[test]
fn last_setting_of_a_mode_wins() {
    let mut terminal = TerminalState::new(2, 10, 0);
    terminal.set_private_mode(2004, true);
    terminal.set_private_mode(2004, false);
    assert!(!terminal.bracketed_paste());
    terminal.set_private_mode(1004, true);
    terminal.set_private_mode(2004, true);
    assert!(terminal.focus_reporting());
    assert!(terminal.bracketed_paste());
}

#[test]
fn any_motion_wins_over_other_tracking_modes() {
    let mut terminal = TerminalState::new(2, 10, 0);
    terminal.set_private_mode(1000, true);
    terminal.set_private_mode(1003, true);
    terminal.set_private_mode(1002, true);
    assert_eq!(terminal.mouse_tracking_mode(), MouseTrackingMode::AnyMotion);
    terminal.set_private_mode(1003, false);
    assert_eq!(terminal.mouse_tracking_mode(), MouseTrackingMode::ButtonMotion);
}

#[test]
fn scrollback_never_exceeds_its_limit() {
    let mut terminal = TerminalState::new(2, 8, 3);
    for i in 0..20u8 {
        print_text(&mut terminal, &format!("l{i}"));
        terminal.carriage_return();
        terminal.linefeed();
    }
    let bottom = terminal.viewport_top();
    assert!(terminal.scroll_viewport_up(100));
    let top = terminal.viewport_top();
    assert!(terminal.line_for_stable_row(top).is_some());
    assert_eq!(bottom - top, 3);
    let oldest = terminal.line_for_stable_row(top).expect("row").text_range(0, 3);
    assert_eq!(oldest, "l16");
}

#[test]
fn linefeed_at_bottom_pushes_top_line_into_scrollback() {
    let mut terminal = TerminalState::new(2, 8, 10);
    print_text(&mut terminal, "first");
    terminal.carriage_return();
    terminal.linefeed();
    print_text(&mut terminal, "second");
    terminal.linefeed();
    assert_eq!(terminal.viewport_top(), 1);
    let pushed = terminal.line_for_stable_row(0).expect("scrollback row");
    assert_eq!(pushed.text_range(0, 5), "first");
    assert_eq!(row_text(&terminal, 0, 6), "second");
}

#[test]
fn viewport_scroll_back_and_forward_round_trips() {
    let mut terminal = TerminalState::new(2, 8, 10);
    for _ in 0..6 {
        terminal.linefeed();
    }
    let bottom = terminal.viewport_top();
    assert!(terminal.scroll_viewport_up(3));
    assert_eq!(terminal.viewport_top(), bottom - 3);
    assert!(terminal.scroll_viewport_down(3));
    assert_eq!(terminal.viewport_top(), bottom);
}

#[test]
fn default_tabs_stop_every_eighth_column() {
    let mut terminal = TerminalState::new(1, 20, 0);
    terminal.tab();
    assert_eq!(terminal.cursor_position(), (0, 8));
    terminal.set_cursor_col(9);
    terminal.tab();
    assert_eq!(terminal.cursor_position(), (0, 16));
    terminal.tab();
    assert_eq!(terminal.cursor_position(), (0, 19));
}

#[test]
fn rotating_storage_and_back_keeps_lines() {
    let mut storage: RowStorage<u32> = RowStorage::with_capacity(4, |i| i as u32);
    let before: Vec<u32> = (0..4).map(|i| *storage.line(Line(i))).collect();
    storage.rotate(1);
    assert_ne!(*storage.line(Line(0)), before[0]);
    storage.rotate(-1);
    let after: Vec<u32> = (0..4).map(|i| *storage.line(Line(i))).collect();
    assert_eq!(before, after);
}

#[test]
fn linear_index_of_a_cell_maps_back_to_it() {
    for row in 0..5u16 {
        for col in 0..7u16 {
            let index = (row as usize) * 7 + col as usize;
            let cell = cell_pos_from_linear(index, 7);
            assert_eq!((cell.row, cell.col), (row, col));
        }
    }
}

#[test]
fn selection_range_is_ordered_either_way() {
    let a = StableCellPos { row: 4, col: 2 };
    let b = StableCellPos { row: 1, col: 9 };
    let mut forward = SelectionState::default();
    forward.set_range(b, a);
    let mut backward = SelectionState::default();
    backward.set_range(a, b);
    assert_eq!(forward.range(), backward.range());
    let range = forward.range().expect("range");
    assert_eq!(range.start, b);
    assert_eq!(range.end, a);
}

fn joined(pieces: &[Vec<TerminalCell>]) -> String {
    pieces.iter().flat_map(|p| p.iter().map(|c| c.contents().to_string())).collect()
}

#[test]
fn wrapping_a_logical_line_keeps_every_cell() {
    let attrs = CellAttributes::default();
    let cells: Vec<TerminalCell> = "abcde".chars().map(|c| TerminalCell::from_char(c, attrs, false)).collect();
    let pieces = wrap_logical_row(&cells, 2);
    assert_eq!(pieces.iter().map(|p| p.len()).collect::<Vec<_>>(), vec![2, 2, 1]);
    assert_eq!(joined(&pieces), "abcde");

    let mut wide = vec![TerminalCell::from_char('a', attrs, false), TerminalCell::from_char('界', attrs, true)];
    wide.push(TerminalCell::continuation(attrs));
    let pieces = wrap_logical_row(&wide, 2);
    assert_eq!(pieces.iter().map(|p| p.len()).collect::<Vec<_>>(), vec![1, 2]);
    assert_eq!(joined(&pieces), "a界");

    let pieces = wrap_logical_row(&cells, 0);
    assert_eq!(pieces.len(), 5);
    assert!(wrap_logical_row(&Vec::new(), 3)[0].is_empty());
}
