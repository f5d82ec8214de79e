use cutty::terminal::{MouseTrackingMode, TerminalColor, TerminalState};

fn write_line(terminal: &mut TerminalState, text: &str) {
    for ch in text.chars() {
        terminal.print(ch);
    }
    terminal.carriage_return();
    terminal.linefeed();
}

#[test]
fn repeated_mixed_resizes_preserve_history() {
    let mut terminal = TerminalState::new(3, 10, 64);
    for line in ["alpha bravo", "charlie delta", "echo foxtrot", "golf hotel"] {
        write_line(&mut terminal, line);
    }

    for (rows, cols) in [(4, 6), (2, 12), (5, 5), (3, 10), (1, 1), (4, 9), (3, 10)] {
        terminal.resize(rows, cols);
    }

    let all = terminal.contents_between_stable(0, 0, terminal.viewport_top() + 6, 10);
    assert!(all.contains("alpha"));
    assert!(all.contains("golf"));
}

#[test]
fn shell_style_prompt_redraw_during_resize_does_not_duplicate_prompt() {
    let mut terminal = TerminalState::new(4, 16, 64);
    write_line(&mut terminal, "old output");
    for ch in "(base) kisaczka@Mac ~ % ".chars() {
        terminal.print(ch);
    }

    terminal.resize(4, 10);
    terminal.cursor_up(2);
    terminal.carriage_return();
    terminal.erase_in_display(0);
    for ch in "(base) kisaczka@Mac ~ % ".chars() {
        terminal.print(ch);
    }
    terminal.resize(4, 20);

    let text = terminal.contents_between_stable(terminal.viewport_top(), 0, terminal.viewport_top() + 3, 20);
    assert_eq!(text.matches("(base) kisaczka@Mac ~ %").count(), 1);
}

#[test]
fn widen_after_narrow_restores_hidden_columns() {
    let mut terminal = TerminalState::new(2, 12, 16);
    for ch in "abcdefghijkl".chars() {
        terminal.print(ch);
    }

    terminal.resize(2, 5);
    terminal.resize(2, 12);

    assert_eq!(terminal.visible_row(0).expect("row").text_range(0, 12), "abcdefghijkl");
}

#[test]
fn viewport_scrollback_survives_resize() {
    let mut terminal = TerminalState::new(2, 8, 32);
    for line in ["one", "two", "three", "four", "five"] {
        write_line(&mut terminal, line);
    }

    terminal.resize(3, 5);
    assert!(terminal.scroll_viewport_up(2));
    let top = terminal.viewport_top();
    assert_eq!(terminal.line_for_stable_row(top).expect("row").text_range(0, 3), "two");
}

#[test]
fn wide_chars_rewrap_cleanly_near_wrap_boundary() {
    let mut terminal = TerminalState::new(3, 4, 16);
    for ch in ['a', 'b', '界', 'c', 'd'] {
        terminal.print(ch);
    }

    terminal.resize(3, 3);
    terminal.resize(3, 4);

    let first = terminal.visible_row(0).expect("row").text_range(0, 4);
    let second = terminal.visible_row(1).expect("row").text_range(0, 4);
    assert_eq!(first, "ab界");
    assert_eq!(second.trim_end(), "cd");
}

#[test]
fn alternate_screen_enter_exit_with_resize_keeps_primary_history() {
    let mut terminal = TerminalState::new(2, 8, 32);
    for line in ["one", "two", "three"] {
        write_line(&mut terminal, line);
    }

    terminal.set_private_mode(1049, true);
    terminal.resize(3, 6);
    for ch in "alt".chars() {
        terminal.print(ch);
    }
    terminal.set_private_mode(1049, false);
    terminal.resize(2, 8);

    let text = terminal.contents_between_stable(0, 0, 3, 8);
    assert!(text.contains("one"));
    assert!(text.contains("three"));
}

#[test]
fn alternate_screen_resize_does_not_rewrap_like_primary() {
    let mut terminal = TerminalState::new(2, 6, 32);
    terminal.set_private_mode(1049, true);
    for ch in "abcdef".chars() {
        terminal.print(ch);
    }

    terminal.resize(2, 3);

    assert_eq!(terminal.visible_row(0).expect("row").text_range(0, 3), "abc");
    assert_eq!(terminal.visible_row(1).expect("row").text_range(0, 3), "   ");
}

fn move_to_wrapped_line_start(terminal: &mut TerminalState) {
    let (cursor_row, _) = terminal.cursor_position();
    let mut steps = 0u16;
    while steps < cursor_row {
        let previous = cursor_row - steps - 1;
        let Some(row) = terminal.visible_row(previous) else {
            break;
        };
        if !row.wrapped() {
            break;
        }
        steps += 1;
    }
    if steps > 0 {
        terminal.cursor_up(steps);
    }
    terminal.carriage_return();
}

#[test]
fn resize_redraw_stress_keeps_prompt_singleton() {
    let mut terminal = TerminalState::new(6, 24, 4096);
    write_line(&mut terminal, "output 1");
    write_line(&mut terminal, "output 2");

    let prompt = "(base) kisaczka@Mac ~ % ";

    for _ in 0..20 {
        for ch in prompt.chars() {
            terminal.print(ch);
        }
        for (rows, cols) in [(6, 9), (5, 7), (4, 5), (3, 3), (2, 2), (1, 1), (6, 24)] {
            terminal.resize(rows, cols);
            move_to_wrapped_line_start(&mut terminal);
            terminal.erase_in_display(0);
            for ch in prompt.chars() {
                terminal.print(ch);
            }
        }
    }

    let history = terminal.contents_between_stable(0, 0, terminal.viewport_top() + 32, 24);
    let visible = terminal.contents_between(0, 0, terminal.size().0.saturating_sub(1), 24);
    assert!(history.contains("output 1"));
    assert!(history.contains("output 2"));
    assert_eq!(visible.matches("(base) kisaczka@Mac ~ %").count(), 1);
}

#[test]
fn color_mapping_keeps_defaults() {
    let mut terminal = TerminalState::new(1, 4, 0);
    terminal.set_fg(TerminalColor::Indexed(2));
    terminal.print('x');

    let cell = terminal.cell(0, 0).expect("cell");
    assert_eq!(cell.fgcolor(), TerminalColor::Indexed(2));
}

#[test]
fn alternate_screen_preserves_primary_buffer_and_cursor_for_1049() {
    let mut terminal = TerminalState::new(2, 8, 16);
    for ch in "main".chars() {
        terminal.print(ch);
    }
    let primary_cursor = terminal.cursor_position();

    terminal.set_private_mode(1049, true);
    assert_eq!(terminal.contents_between(0, 0, 0, 4), "    ");
    assert_eq!(terminal.cursor_position(), (0, 0));

    for ch in "alt".chars() {
        terminal.print(ch);
    }
    assert_eq!(terminal.contents_between(0, 0, 0, 3), "alt");

    terminal.set_private_mode(1049, false);
    assert_eq!(terminal.contents_between(0, 0, 0, 4), "main");
    assert_eq!(terminal.cursor_position(), primary_cursor);
}

#[test]
fn alternate_screen_is_cleared_on_each_entry() {
    let mut terminal = TerminalState::new(2, 8, 16);

    terminal.set_private_mode(1047, true);
    terminal.print('x');
    terminal.set_private_mode(1047, false);

    terminal.set_private_mode(47, true);
    assert_eq!(terminal.contents_between(0, 0, 0, 1), " ");
    assert_eq!(terminal.cursor_position(), (0, 0));
}

#[test]
fn private_modes_toggle_bracketed_paste_and_focus_reporting() {
    let mut terminal = TerminalState::new(2, 8, 16);

    terminal.set_private_mode(2004, true);
    terminal.set_private_mode(1004, true);

    assert!(terminal.bracketed_paste());
    assert!(terminal.focus_reporting());

    terminal.set_private_mode(2004, false);
    terminal.set_private_mode(1004, false);

    assert!(!terminal.bracketed_paste());
    assert!(!terminal.focus_reporting());
}

#[test]
fn mouse_tracking_prefers_highest_enabled_mode() {
    let mut terminal = TerminalState::new(2, 8, 16);

    terminal.set_private_mode(1000, true);
    assert_eq!(terminal.mouse_tracking_mode(), MouseTrackingMode::Normal);

    terminal.set_private_mode(1002, true);
    assert_eq!(terminal.mouse_tracking_mode(), MouseTrackingMode::ButtonMotion);

    terminal.set_private_mode(1003, true);
    assert_eq!(terminal.mouse_tracking_mode(), MouseTrackingMode::AnyMotion);
}

#[test]
fn narrowing_keeps_the_cursor_after_its_text() {
    let mut terminal = TerminalState::new(4, 10, 16);
    for ch in "hello".chars() {
        terminal.print(ch);
    }
    terminal.resize(4, 3);
    assert_eq!(terminal.cursor_position(), (0, 2));
    assert_eq!(terminal.visible_row(0).expect("row").text_range(0, 3), "lo ");
    terminal.resize(4, 10);
    assert_eq!(terminal.cursor_position(), (0, 5));
    assert_eq!(terminal.visible_row(0).expect("row").text_range(0, 5), "hello");
}

#[test]
fn printing_past_the_last_column_wraps_on_a_fresh_terminal() {
    let mut t = TerminalState::new(2, 3, 0);
    for ch in "abc".chars() {
        t.print(ch);
    }
    assert_eq!(t.cursor_position(), (0, 2));
    t.print('d');
    assert_eq!(t.cursor_position(), (1, 1));
    assert!(t.visible_row(0).unwrap().wrapped());
    assert_eq!(t.contents_between(0, 0, 1, 3), "abcd  ");
}

#[test]
fn linefeed_on_the_bottom_row_scrolls_into_scrollback() {
    let mut t = TerminalState::new(2, 3, 10);
    t.print('a');
    t.carriage_return();
    t.linefeed();
    t.print('b');
    t.carriage_return();
    t.linefeed();
    assert_eq!(t.cursor_position(), (1, 0));
    assert_eq!(t.viewport_top(), 1);
    assert_eq!(t.contents_between(0, 0, 0, 3), "b  ");
    assert_eq!(t.contents_between(1, 0, 1, 3), "   ");
    assert_eq!(t.line_for_stable_row(0).unwrap().text_range(0, 3), "a  ");
}

#[test]
fn linefeed_on_the_bottom_row_keeps_the_view_at_the_bottom() {
    let mut terminal = TerminalState::new(2, 3, 10);
    terminal.print('a');
    terminal.carriage_return();
    terminal.linefeed();
    terminal.print('b');
    terminal.carriage_return();
    terminal.linefeed();
    assert_eq!(terminal.cursor_position(), (1, 0));
    assert_eq!(terminal.viewport_top(), 1);
    assert_eq!(terminal.contents_between(0, 0, 0, 3), "b  ");
    assert_eq!(terminal.contents_between(1, 0, 1, 3), "   ");
    assert_eq!(terminal.line_for_stable_row(0).expect("row").text_range(0, 3), "a  ");
}

#[test]
fn scrolled_back_view_follows_its_text_while_output_arrives() {
    let mut terminal = TerminalState::new(2, 8, 32);
    for line in ["one", "two", "three", "four"] {
        write_line(&mut terminal, line);
    }
    assert!(terminal.scroll_viewport_up(1));
    let top = terminal.viewport_top();
    let shown = terminal.line_for_stable_row(top).expect("row").text_range(0, 5);
    write_line(&mut terminal, "five");
    assert_eq!(terminal.viewport_top(), top);
    assert_eq!(terminal.line_for_stable_row(top).expect("row").text_range(0, 5), shown);
}

#[test]
fn resize_keeps_the_cursor_on_screen_and_the_modes() {
    let mut terminal = TerminalState::new(6, 10, 32);
    terminal.set_private_mode(2004, true);
    terminal.set_private_mode(1, true);
    for line in ["alpha", "bravo", "charlie", "delta", "echo"] {
        write_line(&mut terminal, line);
    }
    terminal.resize(3, 4);
    assert_eq!(terminal.size(), (3, 4));
    let (row, col) = terminal.cursor_position();
    assert!(row < 3 && col < 4);
    assert!(terminal.bracketed_paste());
    assert!(terminal.application_cursor());
    assert!(!terminal.focus_reporting());
    terminal.resize(0, 0);
    assert_eq!(terminal.size(), (1, 1));
    assert_eq!(terminal.cursor_position(), (0, 0));
    let before = terminal.contents_between_stable(0, 0, terminal.viewport_top(), 1);
    terminal.resize(1, 1);
    assert_eq!(terminal.contents_between_stable(0, 0, terminal.viewport_top(), 1), before);
}

#[test]
fn printed_character_reads_back_at_the_cursor() {
    let mut terminal = TerminalState::new(3, 6, 8);
    terminal.print('界');
    terminal.carriage_return();
    terminal.print('x');
    let cell = terminal.cell(0, 0).expect("cell");
    assert_eq!(cell.contents(), "x");
    assert!(!cell.wide());
    assert!(!terminal.cell(0, 1).expect("cell").is_wide_continuation());
    assert_eq!(terminal.cursor_position(), (0, 1));
}
