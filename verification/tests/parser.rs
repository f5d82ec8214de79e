use cutty::parser::{
    apply_sgr_values, csi_dispatch, esc_dispatch, execute, first_param, first_param_allow_zero,
    osc_dispatch, params_to_values, parse_extended_color, two_params, window_op_request, ParserCallbacks,
    TerminalOp, csi_op, esc_op, execute_op,
};
use cutty::terminal::{CellAttributes, TerminalColor, TerminalState};

fn params(values: &[&[u16]]) -> Vec<Vec<u16>> {
    values.iter().map(|group| group.to_vec()).collect()
}

#[test]
fn missing_and_zero_parameters_take_the_default() {
    assert_eq!(first_param(&params(&[]), 1), 1);
    assert_eq!(first_param(&params(&[&[0]]), 1), 1);
    assert_eq!(first_param(&params(&[&[7]]), 1), 7);
    assert_eq!(first_param_allow_zero(&params(&[&[0]]), 5), 0);
    assert_eq!(two_params(&params(&[&[3]]), 1, 9), (3, 9));
    assert_eq!(params_to_values(&params(&[&[1], &[38, 5, 200]])), vec![1, 38, 5, 200]);
}

#[test]
fn extended_colors_read_indexed_and_rgb_forms() {
    assert_eq!(parse_extended_color(&vec![5, 200], 0), Some((TerminalColor::Indexed(200), 2)));
    assert_eq!(parse_extended_color(&vec![2, 10, 20, 30], 0), Some((TerminalColor::Rgb(10, 20, 30), 4)));
    assert_eq!(parse_extended_color(&vec![2, 10], 0), None);
}

#[test]
fn sgr_values_set_and_reset_attributes() {
    let attrs = apply_sgr_values(CellAttributes::default(), &vec![1, 31, 44]);
    assert!(attrs.bold);
    assert_eq!(attrs.fg, TerminalColor::Indexed(1));
    assert_eq!(attrs.bg, TerminalColor::Indexed(4));
    let bright = apply_sgr_values(attrs, &vec![22, 95, 38, 2, 1, 2, 3]);
    assert!(!bright.bold);
    assert_eq!(bright.fg, TerminalColor::Rgb(1, 2, 3));
    assert_eq!(apply_sgr_values(bright, &vec![0]), CellAttributes::default());
}

#[test]
fn window_operation_eight_asks_for_a_size() {
    assert_eq!(window_op_request(&vec![8, 30, 100], 24, 80), Some((30, 100)));
    assert_eq!(window_op_request(&vec![8], 24, 80), Some((24, 80)));
    assert_eq!(window_op_request(&vec![8, 0, 0], 24, 80), Some((1, 1)));
    assert_eq!(window_op_request(&vec![14], 24, 80), None);
}

#[test]
fn control_characters_choose_their_operations() {
    assert!(matches!(execute_op(8), TerminalOp::Backspace));
    assert!(matches!(execute_op(9), TerminalOp::Tab));
    assert!(matches!(execute_op(11), TerminalOp::Linefeed));
    assert!(matches!(execute_op(13), TerminalOp::CarriageReturn));
    assert!(matches!(execute_op(7), TerminalOp::Nothing));
    assert!(matches!(esc_op(&[], false, b'7'), TerminalOp::SaveCursor));
    assert!(matches!(esc_op(&[b'('], false, b'7'), TerminalOp::Nothing));
    assert!(matches!(esc_op(&[], false, b'c'), TerminalOp::Reset));
}

#[test]
fn csi_sequences_choose_their_operations() {
    assert!(matches!(csi_op(&params(&[&[3], &[4]]), &[], false, 'H', 24), TerminalOp::SetCursorPosition(2, 3)));
    assert!(matches!(csi_op(&params(&[]), &[], false, 'r', 24), TerminalOp::SetScrollRegion(0, 23)));
    assert!(matches!(csi_op(&params(&[&[2]]), &[], false, 'J', 24), TerminalOp::EraseInDisplay(2)));
    assert!(matches!(csi_op(&params(&[&[2]]), &[], true, 'J', 24), TerminalOp::Nothing));
    match csi_op(&params(&[&[1049], &[2004]]), &[b'?'], false, 'h', 24) {
        TerminalOp::SetPrivateModes(modes, enabled) => {
            assert_eq!(modes, vec![1049, 2004]);
            assert!(enabled);
        },
        other => panic!("unexpected {other:?}"),
    }
    assert!(matches!(csi_op(&params(&[&[1]]), &[b'>'], false, 'h', 24), TerminalOp::Nothing));
}

#[test]
fn cursor_position_sequence_moves_the_cursor() {
    let mut terminal = TerminalState::new(5, 10, 0);
    let mut callbacks = ParserCallbacks::new();
    csi_dispatch(&mut terminal, &mut callbacks, &params(&[&[3], &[4]]), &[], false, 'H');
    assert_eq!(terminal.cursor_position(), (2, 3));
    csi_dispatch(&mut terminal, &mut callbacks, &params(&[&[99], &[99]]), &[], false, 'H');
    assert_eq!(terminal.cursor_position(), (4, 9));
}

#[test]
fn status_reports_answer_through_callbacks() {
    let mut terminal = TerminalState::new(5, 10, 0);
    let mut callbacks = ParserCallbacks::new();
    terminal.set_cursor_position(1, 2);
    csi_dispatch(&mut terminal, &mut callbacks, &params(&[&[6]]), &[], false, 'n');
    csi_dispatch(&mut terminal, &mut callbacks, &params(&[&[5]]), &[], false, 'n');
    csi_dispatch(&mut terminal, &mut callbacks, &params(&[&[9]]), &[], false, 'n');
    assert_eq!(callbacks.take_responses(), vec![b"\x1b[2;3R".to_vec(), b"\x1b[0n".to_vec()]);
    assert!(callbacks.take_responses().is_empty());
}

#[test]
fn window_resize_request_reaches_callbacks() {
    let mut terminal = TerminalState::new(5, 10, 0);
    let mut callbacks = ParserCallbacks::new();
    csi_dispatch(&mut terminal, &mut callbacks, &params(&[&[8], &[30], &[100]]), &[], false, 't');
    assert_eq!(callbacks.take_resize_request(), Some((30, 100)));
    assert_eq!(callbacks.take_resize_request(), None);
}

#[test]
fn private_mode_sequences_switch_modes() {
    let mut terminal = TerminalState::new(5, 10, 0);
    let mut callbacks = ParserCallbacks::new();
    csi_dispatch(&mut terminal, &mut callbacks, &params(&[&[2004], &[1004]]), &[b'?'], false, 'h');
    assert!(terminal.bracketed_paste());
    assert!(terminal.focus_reporting());
    csi_dispatch(&mut terminal, &mut callbacks, &params(&[&[2004]]), &[b'?'], false, 'l');
    assert!(!terminal.bracketed_paste());
    assert!(terminal.focus_reporting());
}

#[test]
fn sgr_sequence_colours_printed_text() {
    let mut terminal = TerminalState::new(2, 10, 0);
    let mut callbacks = ParserCallbacks::new();
    csi_dispatch(&mut terminal, &mut callbacks, &params(&[&[1], &[32]]), &[], false, 'm');
    terminal.print('x');
    csi_dispatch(&mut terminal, &mut callbacks, &params(&[]), &[], false, 'm');
    terminal.print('y');
    let x = terminal.cell(0, 0).expect("cell");
    assert!(x.bold());
    assert_eq!(x.fgcolor(), TerminalColor::Indexed(2));
    let y = terminal.cell(0, 1).expect("cell");
    assert!(!y.bold());
    assert_eq!(y.fgcolor(), TerminalColor::Default);
}

#[test]
fn control_characters_and_escapes_move_the_cursor() {
    let mut terminal = TerminalState::new(3, 10, 0);
    let mut callbacks = ParserCallbacks::new();
    terminal.print('a');
    terminal.print('b');
    execute(&mut terminal, &mut callbacks, 8);
    assert_eq!(terminal.cursor_position(), (0, 1));
    execute(&mut terminal, &mut callbacks, 10);
    assert_eq!(terminal.cursor_position(), (1, 1));
    execute(&mut terminal, &mut callbacks, 13);
    assert_eq!(terminal.cursor_position(), (1, 0));
    esc_dispatch(&mut terminal, &mut callbacks, &[], false, b'E');
    assert_eq!(terminal.cursor_position(), (2, 0));
    esc_dispatch(&mut terminal, &mut callbacks, &[], false, b'M');
    assert_eq!(terminal.cursor_position(), (1, 0));
}

#[test]
fn title_sequences_set_the_title() {
    let mut callbacks = ParserCallbacks::new();
    osc_dispatch(&mut callbacks, &vec![b"0".to_vec(), b"hello".to_vec()]);
    assert_eq!(callbacks.take_title(), Some("hello".to_string()));
    osc_dispatch(&mut callbacks, &vec![b"1".to_vec(), b"icon".to_vec()]);
    assert_eq!(callbacks.take_title(), None);
    osc_dispatch(&mut callbacks, &vec![b"2".to_vec(), vec![0x66, 0xff]]);
    assert_eq!(callbacks.take_title(), Some("f\u{fffd}".to_string()));
}
