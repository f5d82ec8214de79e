//! What the terminal sends for pasted text and mouse events, which keys make which shortcut,
//! and how programmatic window resizes are told apart from the user's.

use crate::parser::decimal;
use crate::selection::CellPos;
use crate::terminal::state::MouseTrackingMode;
use vstd::prelude::*;
use vstd::string::{StrSliceExecFns, StringSliceAdditionalSpecFns};

verus! {

/// What starts bracketed pasted text: `ESC [ 200 ~`.
pub open spec fn paste_start() -> Seq<u8> {
    seq![0x1bu8, 0x5bu8, 0x32u8, 0x30u8, 0x30u8, 0x7eu8]
}

/// What ends bracketed pasted text: `ESC [ 201 ~`.
pub open spec fn paste_end() -> Seq<u8> {
    seq![0x1bu8, 0x5bu8, 0x32u8, 0x30u8, 0x31u8, 0x7eu8]
}

/// Appends the bytes `tail` to `out`.
fn push_all(out: &mut Vec<u8>, tail: &Vec<u8>)
    ensures
        final(out)@ == old(out)@ + tail@,
{
    let mut i: usize = 0;
    while i < tail.len()
        invariant
            i <= tail@.len(),
            out@ == old(out)@ + tail@.subrange(0, i as int),
        decreases tail@.len() - i,
    {
        out.push(tail[i]);
        i = i + 1;
        proof {
            assert(out@ =~= old(out)@ + tail@.subrange(0, i as int));
        }
    }
    proof {
        assert(tail@.subrange(0, tail@.len() as int) =~= tail@);
    }
}

/// The bytes of `ESC [ 20` followed by `last` and `~`.
fn paste_marker(last: u8) -> (r: Vec<u8>)
    ensures
        r@ == seq![0x1bu8, 0x5bu8, 0x32u8, 0x30u8, last, 0x7eu8],
{
    let mut v: Vec<u8> = Vec::new();
    v.push(0x1b);
    v.push(0x5b);
    v.push(0x32);
    v.push(0x30);
    v.push(last);
    v.push(0x7e);
    proof {
        assert(v@ =~= seq![0x1bu8, 0x5bu8, 0x32u8, 0x30u8, last, 0x7eu8]);
    }
    v
}

/// Pasted `text` as bracketed paste sends it: its UTF-8 bytes between the paste markers.
pub fn bracketed_paste_bytes(text: &str) -> (r: Vec<u8>)
    ensures
        r@ == paste_start() + text.spec_bytes() + paste_end(),
{
    let mut bytes = paste_marker(0x30);
    let body = text.as_bytes_vec();
    push_all(&mut bytes, &body);
    let end = paste_marker(0x31);
    push_all(&mut bytes, &end);
    bytes
}

/// A mouse button as the terminal tells them apart.
#[derive(Clone, Copy, Debug, PartialEq, Eq, Hash, Structural)]
pub enum MouseButton {
    Left,
    Right,
    Middle,
    Back,
    Forward,
    Other(u16),
}

/// The modifier keys held.
#[derive(Clone, Copy, Debug, Default, PartialEq, Eq, Structural)]
pub struct Modifiers {
    pub shift: bool,
    pub control: bool,
    pub alt: bool,
    pub super_key: bool,
}

/// Which of the reportable buttons are held.
#[derive(Clone, Copy, Debug, Default, PartialEq, Eq, Structural)]
pub struct PressedButtons {
    pub left: bool,
    pub middle: bool,
    pub right: bool,
}

/// The button code of a reportable button: 0 left, 1 middle, 2 right.
pub open spec fn button_code(button: MouseButton) -> Option<u8> {
    match button {
        MouseButton::Left => Some(0u8),
        MouseButton::Middle => Some(1u8),
        MouseButton::Right => Some(2u8),
        _ => None,
    }
}

/// The button code of a reportable button: 0 left, 1 middle, 2 right; none for the others.
pub fn mouse_button_code(button: MouseButton) -> (r: Option<u8>)
    ensures
        r == button_code(button),
{
    match button {
        MouseButton::Left => Some(0),
        MouseButton::Middle => Some(1),
        MouseButton::Right => Some(2),
        _ => None,
    }
}

/// Whether mouse events of `button` are reported.
pub fn is_reportable_mouse_button(button: MouseButton) -> (r: bool)
    ensures
        r == button_code(button) is Some,
{
    mouse_button_code(button).is_some()
}

/// The modifier bits of a mouse report: 4 shift, 8 alt, 16 control.
pub open spec fn modifier_bits(m: Modifiers) -> u8 {
    ((if m.shift { 4int } else { 0 }) + (if m.alt { 8int } else { 0 }) + (if m.control { 16int } else { 0 })) as u8
}

/// The modifier bits of a mouse report: 4 shift, 8 alt, 16 control.
pub fn mouse_modifier_bits(modifiers: Modifiers) -> (r: u8)
    ensures
        r == modifier_bits(modifiers),
{
    let mut bits: u8 = 0;
    if modifiers.shift {
        bits = bits + 4;
    }
    if modifiers.alt {
        bits = bits + 8;
    }
    if modifiers.control {
        bits = bits + 16;
    }
    bits
}

/// The held button that motion is reported for: left, then middle, then right.
pub open spec fn active_button(p: PressedButtons) -> Option<MouseButton> {
    if p.left {
        Some(MouseButton::Left)
    } else if p.middle {
        Some(MouseButton::Middle)
    } else if p.right {
        Some(MouseButton::Right)
    } else {
        None
    }
}

/// The held button that motion is reported for: left, then middle, then right.
pub fn active_reported_mouse_button(pressed: PressedButtons) -> (r: Option<MouseButton>)
    ensures
        r == active_button(pressed),
{
    if pressed.left {
        Some(MouseButton::Left)
    } else if pressed.middle {
        Some(MouseButton::Middle)
    } else if pressed.right {
        Some(MouseButton::Right)
    } else {
        None
    }
}

/// The report of mouse event `cb` at `cell`. In the SGR encoding: `ESC [ < cb ; col+1 ; row+1`
/// and `M`, or `m` for a release. Otherwise `ESC [ M` and the bytes `cb + 32` (at most 255),
/// `col + 33` and `row + 33`, where column and row are at most 222; none past that. The
/// additions of one wrap around at `u16::MAX`.
pub open spec fn mouse_report(cb: u8, cell: CellPos, sgr: bool, release: bool) -> Option<Seq<u8>> {
    let x = (cell.col + 1) % 0x10000;
    let y = (cell.row + 1) % 0x10000;
    if sgr {
        Some(seq![0x1bu8, 0x5bu8, 0x3cu8] + decimal(cb as nat) + seq![0x3bu8] + decimal(x as nat) + seq![0x3bu8]
            + decimal(y as nat) + seq![if release { 0x6du8 } else { 0x4du8 }])
    } else if x > 223 || y > 223 {
        None
    } else {
        Some(seq![0x1bu8, 0x5bu8, 0x4du8, if cb + 32 > 255 { 255u8 } else { (cb + 32) as u8 }, (x + 32) as u8, (y + 32) as u8])
    }
}

/// Appends the decimal digits of `n` to `out`.
fn push_number(out: &mut Vec<u8>, n: u16)
    ensures
        final(out)@ == old(out)@ + decimal(n as nat),
    decreases n,
{
    if n >= 10 {
        push_number(out, n / 10);
    }
    out.push((n % 10) as u8 + 48);
    proof {
        if n >= 10 {
            assert(decimal(n as nat) == decimal((n / 10) as nat).push((n % 10 + 48) as u8));
        }
    }
}

/// The report of mouse event `cb` at `cell`, as `mouse_report` says.
pub fn encode_mouse_event(cb: u8, cell: CellPos, sgr_mouse: bool, release: bool) -> (r: Option<Vec<u8>>)
    ensures
        match mouse_report(cb, cell, sgr_mouse, release) {
            Some(s) => r matches Some(v) && v@ == s,
            None => r is None,
        },
{
    let x = cell.col.wrapping_add(1);
    let y = cell.row.wrapping_add(1);
    if sgr_mouse {
        let mut out: Vec<u8> = Vec::new();
        out.push(0x1b);
        out.push(0x5b);
        out.push(0x3c);
        push_number(&mut out, cb as u16);
        out.push(0x3b);
        push_number(&mut out, x);
        out.push(0x3b);
        push_number(&mut out, y);
        out.push(if release { 0x6d } else { 0x4d });
        proof {
            let s = seq![0x1bu8, 0x5bu8, 0x3cu8] + decimal(cb as nat) + seq![0x3bu8] + decimal(x as nat) + seq![0x3bu8]
                + decimal(y as nat) + seq![if release { 0x6du8 } else { 0x4du8 }];
            assert(out@ =~= s);
        }
        Some(out)
    } else {
        if x > 223 || y > 223 {
            return None;
        }
        let mut out: Vec<u8> = Vec::new();
        out.push(0x1b);
        out.push(0x5b);
        out.push(0x4d);
        out.push(cb.saturating_add(32));
        out.push(x as u8 + 32);
        out.push(y as u8 + 32);
        proof {
            assert(out@ =~= seq![0x1bu8, 0x5bu8, 0x4du8, if cb + 32 > 255 { 255u8 } else { (cb + 32) as u8 }, (x + 32) as u8, (y + 32) as u8]);
        }
        Some(out)
    }
}

/// The report of pressing (`pressed`) or releasing `button` at `cell`: in the SGR encoding the
/// button's code with the modifier bits, released with `m`; otherwise the button's code, or 3
/// for any release, with the modifier bits. None for a button that is not reported.
pub fn mouse_button_bytes(button: MouseButton, pressed: bool, cell: CellPos, modifiers: Modifiers, sgr_mouse: bool) -> (r: Option<Vec<u8>>)
    ensures
        match button_code(button) {
            Some(code) => {
                let bits = modifier_bits(modifiers);
                let report = if sgr_mouse {
                    mouse_report(code | bits, cell, true, !pressed)
                } else {
                    mouse_report(if pressed { code | bits } else { 3u8 | bits }, cell, false, false)
                };
                match report {
                    Some(s) => r matches Some(v) && v@ == s,
                    None => r is None,
                }
            },
            None => r is None,
        },
{
    let bits = mouse_modifier_bits(modifiers);
    let code = match mouse_button_code(button) {
        Some(code) => code,
        None => return None,
    };
    if sgr_mouse {
        encode_mouse_event(code | bits, cell, true, !pressed)
    } else {
        let cb = if pressed {
            code | bits
        } else {
            3 | bits
        };
        encode_mouse_event(cb, cell, false, false)
    }
}

/// The report of the mouse moving to `cell`: with button-motion tracking only while a
/// reportable button is held, its code plus 32; with any-motion tracking always, 3 plus 32
/// where no button is held; each with the modifier bits. None without motion tracking.
pub fn mouse_motion_bytes(cell: CellPos, modifiers: Modifiers, pressed: PressedButtons, tracking_mode: MouseTrackingMode, sgr_mouse: bool) -> (r: Option<Vec<u8>>)
    ensures
        ({
            let bits = modifier_bits(modifiers);
            let cb = match tracking_mode {
                MouseTrackingMode::ButtonMotion => match active_button(pressed) {
                    Some(b) => match button_code(b) {
                        Some(code) => Some(code | 32u8 | bits),
                        None => None,
                    },
                    None => None,
                },
                MouseTrackingMode::AnyMotion => match active_button(pressed) {
                    Some(b) => match button_code(b) {
                        Some(code) => Some(code | 32u8 | bits),
                        None => None,
                    },
                    None => Some(3u8 | 32u8 | bits),
                },
                _ => None,
            };
            match cb {
                Some(c) => match mouse_report(c, cell, sgr_mouse, false) {
                    Some(s) => r matches Some(v) && v@ == s,
                    None => r is None,
                },
                None => r is None,
            }
        }),
{
    let bits = mouse_modifier_bits(modifiers);
    let cb = match tracking_mode {
        MouseTrackingMode::Disabled | MouseTrackingMode::Normal => return None,
        MouseTrackingMode::ButtonMotion => {
            let button = match active_reported_mouse_button(pressed) {
                Some(b) => b,
                None => return None,
            };
            match mouse_button_code(button) {
                Some(code) => code | 32 | bits,
                None => return None,
            }
        },
        MouseTrackingMode::AnyMotion => {
            match active_reported_mouse_button(pressed) {
                Some(button) => match mouse_button_code(button) {
                    Some(code) => code | 32 | bits,
                    None => return None,
                },
                None => 3 | 32 | bits,
            }
        },
    };
    encode_mouse_event(cb, cell, sgr_mouse, false)
}

/// The wheel codes for a scroll whose vertical and horizontal parts have the signs `y` and
/// `x`: 64 up or 65 down, then 66 right or 67 left, each only where that part is not zero.
pub open spec fn wheel_codes(x: i8, y: i8) -> Seq<u8> {
    (if y > 0 { seq![64u8] } else if y < 0 { seq![65u8] } else { Seq::empty() })
        + (if x > 0 { seq![66u8] } else if x < 0 { seq![67u8] } else { Seq::empty() })
}

/// The wheel codes for a scroll with signs `x` and `y`, as `wheel_codes` says.
pub fn wheel_codes_from_signs(x: i8, y: i8) -> (r: Vec<u8>)
    ensures
        r@ == wheel_codes(x, y),
{
    let mut codes: Vec<u8> = Vec::new();
    if y > 0 {
        codes.push(64);
    } else if y < 0 {
        codes.push(65);
    }
    if x > 0 {
        codes.push(66);
    } else if x < 0 {
        codes.push(67);
    }
    proof {
        assert(codes@ =~= wheel_codes(x, y));
    }
    codes
}

/// The reports of the wheel codes `codes` at `cell`, each with the modifier bits, one after
/// another; those that cannot be encoded are left out.
pub open spec fn wheel_reports(codes: Seq<u8>, bits: u8, cell: CellPos, sgr: bool) -> Seq<u8>
    decreases codes.len(),
{
    if codes.len() == 0 {
        Seq::empty()
    } else {
        wheel_reports(codes.drop_last(), bits, cell, sgr) + match mouse_report(codes.last() | bits, cell, sgr, false) {
            Some(s) => s,
            None => Seq::empty(),
        }
    }
}

/// The reports of a wheel scroll with signs `x` and `y` at `cell`.
pub fn mouse_wheel_bytes(x: i8, y: i8, cell: CellPos, modifiers: Modifiers, sgr_mouse: bool) -> (r: Vec<u8>)
    ensures
        r@ == wheel_reports(wheel_codes(x, y), modifier_bits(modifiers), cell, sgr_mouse),
{
    let bits = mouse_modifier_bits(modifiers);
    let codes = wheel_codes_from_signs(x, y);
    let mut bytes: Vec<u8> = Vec::new();
    let mut i: usize = 0;
    while i < codes.len()
        invariant
            i <= codes@.len(),
            bits == modifier_bits(modifiers),
            bytes@ == wheel_reports(codes@.subrange(0, i as int), bits, cell, sgr_mouse),
        decreases codes@.len() - i,
    {
        let ghost before = bytes@;
        if let Some(sequence) = encode_mouse_event(codes[i] | bits, cell, sgr_mouse, false) {
            push_all(&mut bytes, &sequence);
        }
        proof {
            assert(codes@.subrange(0, i + 1).drop_last() =~= codes@.subrange(0, i as int));
        }
        i = i + 1;
    }
    proof {
        assert(codes@.subrange(0, codes@.len() as int) =~= codes@);
    }
    bytes
}

/// A named key the terminal acts on.
#[derive(Clone, Copy, Debug, PartialEq, Eq, Structural)]
pub enum NamedKey {
    ArrowLeft,
    ArrowRight,
    ArrowUp,
    ArrowDown,
    Home,
    End,
    PageUp,
    PageDown,
    Other,
}

/// A key press: a named key, the text of a character key, or anything else.
#[derive(Clone, Debug, PartialEq, Eq)]
pub enum KeyInput {
    Named(NamedKey),
    Character(String),
    Unidentified,
}

/// How the keyboard moves the selection focus.
#[derive(Clone, Copy, Debug, PartialEq, Eq, Structural)]
pub enum SelectionMove {
    Left,
    Right,
    Up,
    Down,
    Home,
    End,
    WordLeft,
    WordRight,
}

/// `c` with an ASCII capital letter made small.
pub open spec fn ascii_lower(c: char) -> char {
    if 'A' <= c <= 'Z' { ((c as u32) + 32) as char } else { c }
}

/// Whether `a` and `b` are equal but for the case of ASCII letters, as `str::eq_ignore_ascii_case`
/// compares them.
pub open spec fn eq_ignoring_ascii_case(a: Seq<char>, b: Seq<char>) -> bool {
    a.len() == b.len() && forall|i: int| 0 <= i < a.len() ==> ascii_lower(#[trigger] a[i]) == ascii_lower(b[i])
}

fn lower_char(c: char) -> (r: char)
    ensures
        r == ascii_lower(c),
{
    if 'A' <= c && c <= 'Z' {
        let code = (c as u32) + 32;
        proof {
            assert(0x61 <= code <= 0x7a);
        }
        char_from_ascii(code as u8)
    } else {
        c
    }
}

/// The character with ASCII code `b`.
fn char_from_ascii(b: u8) -> (r: char)
    requires
        b < 0x80,
    ensures
        r as u32 == b as u32,
{
    b as char
}

/// Whether `a` and `b` are equal but for the case of ASCII letters.
pub fn eq_ignore_ascii_case(a: &str, b: &str) -> (r: bool)
    ensures
        r == eq_ignoring_ascii_case(a@, b@),
{
    let n = a.unicode_len();
    if n != b.unicode_len() {
        return false;
    }
    let mut i: usize = 0;
    while i < n
        invariant
            n == a@.len(),
            n == b@.len(),
            i <= n,
            forall|j: int| 0 <= j < i ==> ascii_lower(#[trigger] a@[j]) == ascii_lower(b@[j]),
        decreases n - i,
    {
        if lower_char(a.get_char(i)) != lower_char(b.get_char(i)) {
            return false;
        }
        i = i + 1;
    }
    true
}

/// Whether `key` is the character key `expected`, ignoring ASCII case.
pub open spec fn is_character(key: KeyInput, expected: Seq<char>) -> bool {
    match key {
        KeyInput::Character(text) => eq_ignoring_ascii_case(text@, expected),
        _ => false,
    }
}

/// Whether `key` is the character key `expected`, ignoring ASCII case.
pub fn matches_character(key: &KeyInput, expected: &str) -> (r: bool)
    ensures
        r == is_character(*key, expected@),
{
    match key {
        KeyInput::Character(text) => eq_ignore_ascii_case(text.as_str(), expected),
        _ => false,
    }
}

/// Whether the command modifier is held alone: super, without control or alt.
pub fn uses_command_shortcuts(modifiers: Modifiers) -> (r: bool)
    ensures
        r == (modifiers.super_key && !modifiers.control && !modifiers.alt),
{
    modifiers.super_key && !modifiers.control && !modifiers.alt
}

/// Whether the copy shortcut is held: the `c` key with super and without control on macOS
/// (`macos`), with control and shift elsewhere.
pub fn is_copy_shortcut(key: &KeyInput, modifiers: Modifiers, macos: bool) -> (r: bool)
    ensures
        r == (is_character(*key, seq!['c']) && if macos {
            modifiers.super_key && !modifiers.control
        } else {
            modifiers.control && modifiers.shift
        }),
{
    let c = matches_character(key, "c");
    proof {
        reveal_strlit("c");
    }
    c && if macos {
        modifiers.super_key && !modifiers.control
    } else {
        modifiers.control && modifiers.shift
    }
}

/// Whether the paste shortcut is held: the `v` key with the modifiers of the copy shortcut.
pub fn is_paste_shortcut(key: &KeyInput, modifiers: Modifiers, macos: bool) -> (r: bool)
    ensures
        r == (is_character(*key, seq!['v']) && if macos {
            modifiers.super_key && !modifiers.control
        } else {
            modifiers.control && modifiers.shift
        }),
{
    let v = matches_character(key, "v");
    proof {
        reveal_strlit("v");
    }
    v && if macos {
        modifiers.super_key && !modifiers.control
    } else {
        modifiers.control && modifiers.shift
    }
}

/// Whether the shortcut that enlarges the font is held: `+` or `=` with the command modifier.
pub fn is_font_increase_shortcut(key: &KeyInput, modifiers: Modifiers) -> (r: bool)
    ensures
        r == ((modifiers.super_key && !modifiers.control && !modifiers.alt) && (is_character(*key, seq!['+'])
            || is_character(*key, seq!['=']))),
{
    let plus = matches_character(key, "+");
    let equals = matches_character(key, "=");
    proof {
        reveal_strlit("+");
        reveal_strlit("=");
    }
    uses_command_shortcuts(modifiers) && (plus || equals)
}

/// Whether the shortcut that shrinks the font is held: `-` or `_` with the command modifier.
pub fn is_font_decrease_shortcut(key: &KeyInput, modifiers: Modifiers) -> (r: bool)
    ensures
        r == ((modifiers.super_key && !modifiers.control && !modifiers.alt) && (is_character(*key, seq!['-'])
            || is_character(*key, seq!['_']))),
{
    let minus = matches_character(key, "-");
    let underscore = matches_character(key, "_");
    proof {
        reveal_strlit("-");
        reveal_strlit("_");
    }
    uses_command_shortcuts(modifiers) && (minus || underscore)
}

/// How a key moves the selection focus: with shift held, and neither control nor super, the
/// arrows move by a cell (by a word left and right with alt), home and end to the ends of the
/// row; nothing else moves it, and up, down, home and end do not with alt.
pub open spec fn selection_move(key: KeyInput, m: Modifiers) -> Option<SelectionMove> {
    if !m.shift || m.control || m.super_key {
        None
    } else {
        match key {
            KeyInput::Named(NamedKey::ArrowLeft) => Some(if m.alt { SelectionMove::WordLeft } else { SelectionMove::Left }),
            KeyInput::Named(NamedKey::ArrowRight) => Some(if m.alt { SelectionMove::WordRight } else { SelectionMove::Right }),
            KeyInput::Named(NamedKey::ArrowUp) => if m.alt { None } else { Some(SelectionMove::Up) },
            KeyInput::Named(NamedKey::ArrowDown) => if m.alt { None } else { Some(SelectionMove::Down) },
            KeyInput::Named(NamedKey::Home) => if m.alt { None } else { Some(SelectionMove::Home) },
            KeyInput::Named(NamedKey::End) => if m.alt { None } else { Some(SelectionMove::End) },
            _ => None,
        }
    }
}

/// How `key` with `modifiers` moves the selection focus, as `selection_move` says.
pub fn selection_move_for_key(key: &KeyInput, modifiers: Modifiers) -> (r: Option<SelectionMove>)
    ensures
        r == selection_move(*key, modifiers),
{
    if !modifiers.shift || modifiers.control || modifiers.super_key {
        return None;
    }
    let word_mode = modifiers.alt;
    match key {
        KeyInput::Named(NamedKey::ArrowLeft) => Some(if word_mode { SelectionMove::WordLeft } else { SelectionMove::Left }),
        KeyInput::Named(NamedKey::ArrowRight) => Some(if word_mode { SelectionMove::WordRight } else { SelectionMove::Right }),
        KeyInput::Named(NamedKey::ArrowUp) => if word_mode { None } else { Some(SelectionMove::Up) },
        KeyInput::Named(NamedKey::ArrowDown) => if word_mode { None } else { Some(SelectionMove::Down) },
        KeyInput::Named(NamedKey::Home) => if word_mode { None } else { Some(SelectionMove::Home) },
        KeyInput::Named(NamedKey::End) => if word_mode { None } else { Some(SelectionMove::End) },
        _ => None,
    }
}

/// Which way a key scrolls the viewport by a page: up (1) with shift and page up, down (-1)
/// with shift and page down; no other modifier may be held.
pub fn viewport_scroll_shortcut(key: &KeyInput, modifiers: Modifiers) -> (r: Option<i32>)
    ensures
        r == if !modifiers.shift || modifiers.control || modifiers.alt || modifiers.super_key {
            None::<i32>
        } else {
            match *key {
                KeyInput::Named(NamedKey::PageUp) => Some(1i32),
                KeyInput::Named(NamedKey::PageDown) => Some(-1i32),
                _ => None::<i32>,
            }
        },
{
    if !modifiers.shift || modifiers.control || modifiers.alt || modifiers.super_key {
        return None;
    }
    match key {
        KeyInput::Named(NamedKey::PageUp) => Some(1),
        KeyInput::Named(NamedKey::PageDown) => Some(-1),
        _ => None,
    }
}

/// Which way a key scrolls the viewport by a page, as `viewport_scroll_shortcut` says.
pub open spec fn page_scroll(key: KeyInput, m: Modifiers) -> Option<i32> {
    if !m.shift || m.control || m.alt || m.super_key {
        None
    } else {
        match key {
            KeyInput::Named(NamedKey::PageUp) => Some(1i32),
            KeyInput::Named(NamedKey::PageDown) => Some(-1i32),
            _ => None,
        }
    }
}

/// The modifiers of the copy and paste shortcuts: super without control on macOS (`macos`),
/// control and shift elsewhere.
pub open spec fn clipboard_modifiers(m: Modifiers, macos: bool) -> bool {
    if macos { m.super_key && !m.control } else { m.control && m.shift }
}

/// The command modifier held alone: super, without control or alt.
pub open spec fn command_held(m: Modifiers) -> bool {
    m.super_key && !m.control && !m.alt
}

/// What a key press does in the terminal window.
#[derive(Clone, Copy, Debug, PartialEq, Eq, Structural)]
pub enum KeyAction {
    MoveSelection(SelectionMove),
    ScrollPage(i32),
    Copy,
    Paste,
    FontIncrease,
    FontDecrease,
    Input,
}

/// What `key` with `modifiers` does, the first that applies of: moving the keyboard selection,
/// scrolling the viewport a page, copying, pasting, enlarging or shrinking the font; anything
/// else goes to the terminal as input.
pub open spec fn key_action_of(key: KeyInput, m: Modifiers, macos: bool) -> KeyAction {
    if selection_move(key, m) is Some {
        KeyAction::MoveSelection(selection_move(key, m)->0)
    } else if page_scroll(key, m) is Some {
        KeyAction::ScrollPage(page_scroll(key, m)->0)
    } else if is_character(key, seq!['c']) && clipboard_modifiers(m, macos) {
        KeyAction::Copy
    } else if is_character(key, seq!['v']) && clipboard_modifiers(m, macos) {
        KeyAction::Paste
    } else if command_held(m) && (is_character(key, seq!['+']) || is_character(key, seq!['='])) {
        KeyAction::FontIncrease
    } else if command_held(m) && (is_character(key, seq!['-']) || is_character(key, seq!['_'])) {
        KeyAction::FontDecrease
    } else {
        KeyAction::Input
    }
}

/// What `key` with `modifiers` does, as `key_action_of` says; `macos` picks the platform's
/// clipboard shortcuts.
pub fn key_action(key: &KeyInput, modifiers: Modifiers, macos: bool) -> (r: KeyAction)
    ensures
        r == key_action_of(*key, modifiers, macos),
{
    if let Some(m) = selection_move_for_key(key, modifiers) {
        return KeyAction::MoveSelection(m);
    }
    if let Some(direction) = viewport_scroll_shortcut(key, modifiers) {
        return KeyAction::ScrollPage(direction);
    }
    if is_copy_shortcut(key, modifiers, macos) {
        return KeyAction::Copy;
    }
    if is_paste_shortcut(key, modifiers, macos) {
        return KeyAction::Paste;
    }
    if is_font_increase_shortcut(key, modifiers) {
        return KeyAction::FontIncrease;
    }
    if is_font_decrease_shortcut(key, modifiers) {
        return KeyAction::FontDecrease;
    }
    KeyAction::Input
}

/// How many lines a page scroll in `direction` moves a viewport of `rows` rows: a screen but
/// one line (at least one line), times the direction, kept within `i32`.
pub open spec fn page_lines(rows: u16, direction: i32) -> int {
    let lines = if rows >= 2 { rows - 1 } else { 1 };
    let product = direction * lines;
    if product > i32::MAX { i32::MAX as int } else if product < i32::MIN { i32::MIN as int } else { product }
}

/// How many lines a page scroll in `direction` moves a viewport of `rows` rows, as
/// `page_lines` says.
pub fn viewport_page_lines(rows: u16, direction: i32) -> (r: i32)
    ensures
        r == page_lines(rows, direction),
{
    let lines: i64 = if rows >= 2 {
        (rows - 1) as i64
    } else {
        1
    };
    proof {
        assert(-0x8000_0000 * 0xffff <= direction * lines <= 0x7fff_ffff * 0xffff) by (nonlinear_arith)
            requires
                -0x8000_0000 <= direction <= 0x7fff_ffff,
                1 <= lines <= 0xffff,
        ;
    }
    let product = direction as i64 * lines;
    if product > i32::MAX as i64 {
        i32::MAX
    } else if product < i32::MIN as i64 {
        i32::MIN
    } else {
        product as i32
    }
}

/// How many window resize events a programmatic resize waits for before giving up.
pub const MAX_PENDING_RESIZE_EVENTS: u8 = 4;

/// A window size in pixels.
#[derive(Clone, Copy, Debug, PartialEq, Eq, Structural)]
pub struct PixelSize {
    pub width: u32,
    pub height: u32,
}

/// A resize the terminal asked the window for: the grid it wants, the window size that gives
/// it, and how many window events have missed it.
#[derive(Clone, Copy, Debug, PartialEq, Eq, Structural)]
pub struct PendingGridResize {
    pub cols: u16,
    pub rows: u16,
    pub target_size: PixelSize,
    pub misses: u8,
}

/// What to do about a window resize event.
#[derive(Clone, Copy, Debug, PartialEq, Eq, Structural)]
pub enum ResizeDecision {
    Ignore,
    Retry(PixelSize),
    ApplyGrid(u16, u16),
}

/// Tells the window resizes the terminal asked for from those of the user.
#[derive(Clone, Debug, Default, PartialEq, Eq)]
pub struct ResizeController {
    pending_programmatic_resize: Option<PendingGridResize>,
}

impl ResizeController {
    /// The resize the terminal asked for and is waiting on.
    pub closed spec fn pending_spec(&self) -> Option<PendingGridResize> {
        self.pending_programmatic_resize
    }

    /// Waits for the window to reach `target_size`, which shows `cols` columns and `rows` rows.
    pub fn request_grid_preserving_resize(&mut self, cols: u16, rows: u16, target_size: PixelSize)
        ensures
            final(self).pending_spec() == Some(PendingGridResize { cols, rows, target_size, misses: 0 }),
    {
        self.pending_programmatic_resize = Some(PendingGridResize { cols, rows, target_size, misses: 0 });
    }

    /// Whether a resize the terminal asked for is awaited.
    pub fn has_pending_resize(&self) -> (r: bool)
        ensures
            r == self.pending_spec() is Some,
    {
        self.pending_programmatic_resize.is_some()
    }

    /// Decides on a window resize event that leaves room for `actual_grid` (columns, rows)
    /// while the terminal shows `current_grid`. While the terminal shows the grid it asked for,
    /// an event that gives that grid ends the wait and is ignored, and one that does not asks
    /// for the target size again, up to `MAX_PENDING_RESIZE_EVENTS` times. Otherwise the wait
    /// ends and the grid the window gives is applied.
    pub fn resolve_window_resize(&mut self, actual_grid: (u16, u16), current_grid: (u16, u16)) -> (r: ResizeDecision)
        ensures
            match old(self).pending_spec() {
                Some(p) => {
                    if current_grid == (p.cols, p.rows) && actual_grid == (p.cols, p.rows) {
                        r == ResizeDecision::Ignore && final(self).pending_spec() is None
                    } else if current_grid == (p.cols, p.rows) && p.misses < MAX_PENDING_RESIZE_EVENTS {
                        r == ResizeDecision::Retry(p.target_size)
                            && final(self).pending_spec() == Some(PendingGridResize { misses: (p.misses + 1) as u8, ..p })
                    } else {
                        r == ResizeDecision::ApplyGrid(actual_grid.0, actual_grid.1) && final(self).pending_spec() is None
                    }
                },
                None => r == ResizeDecision::ApplyGrid(actual_grid.0, actual_grid.1) && final(self).pending_spec() is None,
            },
    {
        if let Some(pending) = self.pending_programmatic_resize {
            let preserved = current_grid.0 == pending.cols && current_grid.1 == pending.rows;
            if preserved {
                if actual_grid.0 == pending.cols && actual_grid.1 == pending.rows {
                    self.pending_programmatic_resize = None;
                    return ResizeDecision::Ignore;
                }
                if pending.misses < MAX_PENDING_RESIZE_EVENTS {
                    self.pending_programmatic_resize = Some(PendingGridResize { misses: pending.misses + 1, ..pending });
                    return ResizeDecision::Retry(pending.target_size);
                }
            }
            self.pending_programmatic_resize = None;
        }
        ResizeDecision::ApplyGrid(actual_grid.0, actual_grid.1)
    }
}

} // verus!
