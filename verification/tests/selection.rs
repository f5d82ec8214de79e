use cutty::selection::{SelectionState, StableCellPos};
use cutty::terminal::TerminalState;

#[test]
fn explicit_single_cell_selection_is_preserved() {
    let mut selection = SelectionState::default();
    let cell = StableCellPos { row: 1, col: 2 };

    assert!(selection.set_range(cell, cell));
    assert_eq!(selection.range().expect("range").start, cell);
    assert_eq!(selection.range().expect("range").end, cell);
}

#[test]
fn single_cell_selection_text_round_trips() {
    let mut terminal = TerminalState::new(2, 4, 0);
    terminal.print('a');
    terminal.print('b');

    let mut selection = SelectionState::default();
    selection.set_range(StableCellPos { row: 0, col: 1 }, StableCellPos { row: 0, col: 1 });

    assert_eq!(selection.selection_text(&terminal).as_deref(), Some("b"));
}

#[test]
fn selection_range_orders_its_ends() {
    let mut selection = SelectionState::default();
    selection.begin(StableCellPos { row: 3, col: 1 });
    assert!(selection.update(StableCellPos { row: 1, col: 5 }));
    let range = selection.range().expect("range");
    assert_eq!(range.start, StableCellPos { row: 1, col: 5 });
    assert_eq!(range.end, StableCellPos { row: 3, col: 1 });
    assert!(selection.finish());
    assert!(selection.is_selected());
}

#[test]
fn empty_selection_is_dropped_when_finished() {
    let mut selection = SelectionState::default();
    selection.begin(StableCellPos { row: 2, col: 2 });
    assert!(!selection.update(StableCellPos { row: 2, col: 2 }));
    assert!(selection.finish());
    assert!(!selection.is_selected());
    assert_eq!(selection.range(), None);
}

#[test]
fn selected_columns_per_visible_row() {
    let terminal = TerminalState::new(3, 10, 0);
    let mut selection = SelectionState::default();
    selection.set_range(StableCellPos { row: 0, col: 4 }, StableCellPos { row: 2, col: 1 });
    assert_eq!(selection.cols_for_visible_row(&terminal, 0), Some((4, 10)));
    assert_eq!(selection.cols_for_visible_row(&terminal, 1), Some((0, 10)));
    assert_eq!(selection.cols_for_visible_row(&terminal, 2), Some((0, 2)));
}
