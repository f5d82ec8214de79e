use cutty::input::{
    active_reported_mouse_button, bracketed_paste_bytes, encode_mouse_event, eq_ignore_ascii_case,
    is_copy_shortcut, is_font_decrease_shortcut, is_font_increase_shortcut, is_paste_shortcut,
    is_reportable_mouse_button, mouse_button_bytes, mouse_button_code, mouse_modifier_bits,
    mouse_motion_bytes, mouse_wheel_bytes, selection_move_for_key, uses_command_shortcuts,
    viewport_scroll_shortcut, wheel_codes_from_signs, KeyInput, Modifiers, MouseButton, NamedKey,
    PixelSize, PressedButtons, ResizeController, ResizeDecision, SelectionMove,
    MAX_PENDING_RESIZE_EVENTS,
};
use cutty::navigation::{cell_pos_from_linear, move_selection_focus};
use cutty::selection::CellPos;
use cutty::terminal::{MouseTrackingMode, TerminalState};

fn mods(shift: bool, control: bool, alt: bool, super_key: bool) -> Modifiers {
    Modifiers { shift, control, alt, super_key }
}

fn character(text: &str) -> KeyInput {
    KeyInput::Character(text.to_string())
}

#[test]
fn command_shortcuts_require_super_without_ctrl_or_alt() {
    assert!(uses_command_shortcuts(mods(false, false, false, true)));
    assert!(!uses_command_shortcuts(mods(false, true, false, true)));
    assert!(!uses_command_shortcuts(mods(false, false, true, true)));
}

#[test]
fn font_shortcuts_match_plus_equals_minus_and_underscore() {
    let modifiers = mods(false, false, false, true);

    assert!(is_font_increase_shortcut(&character("+"), modifiers));
    assert!(is_font_increase_shortcut(&character("="), modifiers));
    assert!(is_font_decrease_shortcut(&character("-"), modifiers));
    assert!(is_font_decrease_shortcut(&character("_"), modifiers));
}

#[test]
fn programmatic_resize_suppresses_matching_window_resize_events() {
    let size = PixelSize { width: 800, height: 480 };
    let mut controller = ResizeController::default();

    controller.request_grid_preserving_resize(80, 24, size);

    assert_eq!(controller.resolve_window_resize((80, 24), (80, 24)), ResizeDecision::Ignore);
    assert!(!controller.has_pending_resize());
}

#[test]
fn programmatic_resize_retries_when_window_is_still_too_small_for_target_grid() {
    let requested_size = PixelSize { width: 800, height: 480 };
    let mut controller = ResizeController::default();

    controller.request_grid_preserving_resize(80, 24, requested_size);

    for _ in 0..MAX_PENDING_RESIZE_EVENTS {
        assert_eq!(
            controller.resolve_window_resize((80, 23), (80, 24)),
            ResizeDecision::Retry(requested_size)
        );
    }
}

#[test]
fn programmatic_resize_times_out_if_window_never_reaches_requested_size() {
    let requested_size = PixelSize { width: 800, height: 480 };
    let fallback_grid = (80u16, 23u16);
    let mut controller = ResizeController::default();

    controller.request_grid_preserving_resize(80, 24, requested_size);

    for _ in 0..MAX_PENDING_RESIZE_EVENTS {
        let _ = controller.resolve_window_resize(fallback_grid, (80, 24));
    }

    assert_eq!(
        controller.resolve_window_resize(fallback_grid, (80, 24)),
        ResizeDecision::ApplyGrid(fallback_grid.0, fallback_grid.1)
    );
    assert!(!controller.has_pending_resize());
}

#[test]
fn bracketed_paste_wraps_text_in_expected_markers() {
    assert_eq!(bracketed_paste_bytes("hello"), b"\x1b[200~hello\x1b[201~".to_vec());
}

#[test]
fn sgr_mouse_release_uses_lowercase_suffix() {
    let bytes = mouse_button_bytes(
        MouseButton::Left,
        false,
        CellPos { row: 2, col: 4 },
        Modifiers::default(),
        true,
    )
    .expect("mouse bytes");

    assert_eq!(bytes, b"\x1b[<0;5;3m".to_vec());
}

#[test]
fn any_motion_mouse_reports_without_pressed_buttons() {
    let bytes = mouse_motion_bytes(
        CellPos { row: 1, col: 2 },
        Modifiers::default(),
        PressedButtons::default(),
        MouseTrackingMode::AnyMotion,
        true,
    )
    .expect("mouse bytes");

    assert_eq!(bytes, b"\x1b[<35;3;2M".to_vec());
}

#[test]
fn legacy_mouse_encoding_is_one_based_with_offset() {
    let bytes = encode_mouse_event(0, CellPos { row: 0, col: 0 }, false, false).expect("mouse bytes");

    assert_eq!(bytes, vec![0x1b, b'[', b'M', 32, 33, 33]);
}

#[test]
fn wheel_codes_follow_scroll_direction_signs() {
    assert_eq!(wheel_codes_from_signs(0, 1), vec![64]);
    assert_eq!(wheel_codes_from_signs(0, -1), vec![65]);
    assert_eq!(wheel_codes_from_signs(1, 0), vec![66]);
    assert_eq!(wheel_codes_from_signs(-1, 0), vec![67]);
}

#[test]
fn selection_shortcuts_require_shift_and_respect_alt_word_mode() {
    assert_eq!(
        selection_move_for_key(&KeyInput::Named(NamedKey::ArrowLeft), mods(true, false, true, false)),
        Some(SelectionMove::WordLeft)
    );
    assert_eq!(
        selection_move_for_key(&KeyInput::Named(NamedKey::ArrowDown), mods(true, false, false, false)),
        Some(SelectionMove::Down)
    );
    assert_eq!(
        selection_move_for_key(&KeyInput::Named(NamedKey::ArrowLeft), Modifiers::default()),
        None
    );
}

#[test]
fn viewport_scroll_shortcuts_use_shift_page_keys_only() {
    assert_eq!(
        viewport_scroll_shortcut(&KeyInput::Named(NamedKey::PageUp), mods(true, false, false, false)),
        Some(1)
    );
    assert_eq!(
        viewport_scroll_shortcut(&KeyInput::Named(NamedKey::PageDown), mods(true, false, false, false)),
        Some(-1)
    );
    assert_eq!(
        viewport_scroll_shortcut(&KeyInput::Named(NamedKey::PageUp), mods(true, true, false, false)),
        None
    );
}

#[test]
fn word_movement_skips_spaces_and_whole_words() {
    let mut terminal = TerminalState::new(1, 12, 0);
    for ch in "hello  world".chars() {
        terminal.print(ch);
    }

    assert_eq!(move_selection_focus(&terminal, 12, SelectionMove::WordLeft), 7);
    assert_eq!(move_selection_focus(&terminal, 0, SelectionMove::WordRight), 5);
    assert_eq!(move_selection_focus(&terminal, 5, SelectionMove::WordRight), 12);
}

#[test]
fn linear_indices_map_back_to_cells() {
    assert_eq!(cell_pos_from_linear(0, 4), CellPos { row: 0, col: 0 });
    assert_eq!(cell_pos_from_linear(6, 4), CellPos { row: 1, col: 2 });
}

#[test]
fn sgr_press_with_modifiers_adds_modifier_bits() {
    let bytes = mouse_button_bytes(
        MouseButton::Right,
        true,
        CellPos { row: 0, col: 9 },
        mods(true, true, false, false),
        true,
    )
    .expect("mouse bytes");

    assert_eq!(bytes, b"\x1b[<22;10;1M".to_vec());
}

#[test]
fn legacy_release_reports_button_three() {
    let bytes = mouse_button_bytes(
        MouseButton::Middle,
        false,
        CellPos { row: 3, col: 1 },
        Modifiers::default(),
        false,
    )
    .expect("mouse bytes");

    assert_eq!(bytes, vec![0x1b, b'[', b'M', 35, 34, 36]);
}

#[test]
fn legacy_encoding_refuses_cells_beyond_byte_range() {
    assert_eq!(encode_mouse_event(0, CellPos { row: 0, col: 223 }, false, false), None);
    assert!(encode_mouse_event(0, CellPos { row: 0, col: 222 }, false, false).is_some());
    assert!(encode_mouse_event(0, CellPos { row: 500, col: 500 }, true, false).is_some());
}

#[test]
fn unreportable_buttons_give_no_bytes() {
    assert_eq!(mouse_button_code(MouseButton::Back), None);
    assert!(!is_reportable_mouse_button(MouseButton::Other(7)));
    assert!(is_reportable_mouse_button(MouseButton::Middle));
    assert_eq!(
        mouse_button_bytes(MouseButton::Forward, true, CellPos { row: 0, col: 0 }, Modifiers::default(), true),
        None
    );
}

#[test]
fn modifier_bits_follow_xterm_weights() {
    assert_eq!(mouse_modifier_bits(mods(true, false, false, false)), 4);
    assert_eq!(mouse_modifier_bits(mods(false, false, true, false)), 8);
    assert_eq!(mouse_modifier_bits(mods(false, true, false, false)), 16);
    assert_eq!(mouse_modifier_bits(mods(true, true, true, true)), 28);
}

#[test]
fn active_button_prefers_left_then_middle_then_right() {
    let all = PressedButtons { left: true, middle: true, right: true };
    let middle_right = PressedButtons { left: false, middle: true, right: true };
    let right = PressedButtons { left: false, middle: false, right: true };
    assert_eq!(active_reported_mouse_button(all), Some(MouseButton::Left));
    assert_eq!(active_reported_mouse_button(middle_right), Some(MouseButton::Middle));
    assert_eq!(active_reported_mouse_button(right), Some(MouseButton::Right));
    assert_eq!(active_reported_mouse_button(PressedButtons::default()), None);
}

#[test]
fn button_motion_needs_a_held_button() {
    let held = PressedButtons { left: true, middle: false, right: false };
    assert_eq!(
        mouse_motion_bytes(CellPos { row: 0, col: 0 }, Modifiers::default(), PressedButtons::default(), MouseTrackingMode::ButtonMotion, true),
        None
    );
    assert_eq!(
        mouse_motion_bytes(CellPos { row: 0, col: 0 }, Modifiers::default(), held, MouseTrackingMode::ButtonMotion, true),
        Some(b"\x1b[<32;1;1M".to_vec())
    );
    assert_eq!(
        mouse_motion_bytes(CellPos { row: 0, col: 0 }, Modifiers::default(), held, MouseTrackingMode::Normal, true),
        None
    );
}

#[test]
fn wheel_reports_one_event_per_direction() {
    let bytes = mouse_wheel_bytes(-1, 1, CellPos { row: 0, col: 0 }, Modifiers::default(), true);
    assert_eq!(bytes, b"\x1b[<64;1;1M\x1b[<67;1;1M".to_vec());
    assert!(mouse_wheel_bytes(0, 0, CellPos { row: 0, col: 0 }, Modifiers::default(), true).is_empty());
}

#[test]
fn copy_and_paste_shortcuts_depend_on_platform() {
    assert!(is_copy_shortcut(&character("c"), mods(false, false, false, true), true));
    assert!(!is_copy_shortcut(&character("c"), mods(false, false, false, true), false));
    assert!(is_copy_shortcut(&character("C"), mods(true, true, false, false), false));
    assert!(!is_copy_shortcut(&character("c"), mods(false, true, false, false), false));
    assert!(is_paste_shortcut(&character("v"), mods(false, false, false, true), true));
    assert!(is_paste_shortcut(&character("V"), mods(true, true, false, false), false));
    assert!(!is_paste_shortcut(&KeyInput::Unidentified, mods(true, true, false, false), false));
}

#[test]
fn ascii_case_is_ignored_but_length_matters() {
    assert!(eq_ignore_ascii_case("Hello", "hELLO"));
    assert!(!eq_ignore_ascii_case("Hello", "Hell"));
    assert!(!eq_ignore_ascii_case("é", "É"));
}

#[test]
fn user_resize_without_pending_request_applies_grid() {
    let mut controller = ResizeController::default();
    assert_eq!(controller.resolve_window_resize((100, 30), (80, 24)), ResizeDecision::ApplyGrid(100, 30));
    controller.request_grid_preserving_resize(80, 24, PixelSize { width: 1, height: 1 });
    assert_eq!(controller.resolve_window_resize((90, 24), (70, 24)), ResizeDecision::ApplyGrid(90, 24));
    assert!(!controller.has_pending_resize());
}
