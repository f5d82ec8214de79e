//! Properties that relate several operations of the library, each stated over the contracts
//! of the operations it speaks of.

use crate::grid::index::{clamp_line, history_of, Boundary, Dimensions, Line};
use crate::grid::storage::{rotate_seq, RowStorage};
use crate::input::SelectionMove;
use crate::navigation::{back_over, class_at, forward_over, lemma_back_over_stops, lemma_forward_over_stops, linear_cell, moved_focus, TextClass};
use crate::parser::{
    decimal, op_effect, osc_title, report_reply, window_request, is_csi_op, is_esc_op, is_execute_op, is_standard_op, position_report, lemma_sgr_from_shift, lemma_sgr_single, sgr_from, sgr_step, TerminalOp,
};
use crate::terminal::cells::{default_attrs, CellAttributes, TerminalColor};
use crate::selection::{ordered, pos_le, CellPos, StableCellPos};
use crate::terminal::cells::{blank_view, CellView};
use crate::terminal::line::cell_text;
use crate::terminal::edit::{
    char_cell, cleared_rows, cleared_screen_rows, col_after, delete_cells_view, erase_start, insert_blanks_view,
    lemma_cleared_rows_len, lemma_cleared_screen_rows, lemma_erase_start, rewritten, written_view,
};
use crate::terminal::line::{
    lemma_normalize_from_keeps_narrow, lemma_normalize_from_len, lemma_normalize_from_no_new_wide, lemma_normalize_view_plain,
    lemma_resize_view_full, plain_cells,
    normalize_from, reflow_break_spec, resize_view, segments_from, text_view, wrap_view,
};
use crate::terminal::screen::{
    clear_cols, cleared_line, is_blank_line, lemma_clear_cols_plain, lemma_cleared_line_blank, reconciled, ScreenBuffer,
    SavedCursor,
};
use crate::terminal::state::{
    contents_spec, lemma_rows_text_first, row_text, rows_text,
    default_tab_stop, mode_set, stop_from, tab_target, tracking_of, viewport_down_offset, viewport_up_offset,
    MouseModes, MouseTrackingMode, TerminalModes, TerminalState,
};
use vstd::prelude::*;

verus! {

/// Switching to the alternate screen with mode 1049 and back gives the primary screen back as
/// it was: the same rows, the cursor and the attributes where they were, the modes as they
/// were; only the saved cursor now holds the cursor, and no wrap is pending.
pub proof fn law_alternate_screen_round_trip(t0: TerminalState, t1: TerminalState, t2: TerminalState)
    requires
        t0.wf(),
        !t0.modes_spec().alternate_screen,
        t0.set_private_mode_effect(&t1, 1049, true),
        t1.set_private_mode_effect(&t2, 1049, false),
    ensures
        !t2.modes_spec().alternate_screen,
        t2.modes_spec() == t0.modes_spec(),
        t2.rows_spec() == t0.rows_spec(),
        t2.cols_spec() == t0.cols_spec(),
        t2.active_spec() == (ScreenBuffer {
            saved_cursor: SavedCursor { cursor: t0.primary_spec().cursor, attrs: t0.primary_spec().attrs },
            pending_wrap: false,
            ..t0.primary_spec()
        }),
        t2.active_spec().lines() == t0.active_spec().lines(),
        t2.active_spec().cursor == t0.active_spec().cursor,
        t2.active_spec().attrs == t0.active_spec().attrs,
{
}

/// Switching to the alternate screen with mode 47 or 1047 and back leaves the primary screen
/// exactly as it was.
pub proof fn law_alternate_screen_keeps_primary(t0: TerminalState, t1: TerminalState, t2: TerminalState, mode: u16)
    requires
        t0.wf(),
        mode == 47 || mode == 1047,
        !t0.modes_spec().alternate_screen,
        t0.set_private_mode_effect(&t1, mode, true),
        t1.set_private_mode_effect(&t2, mode, false),
    ensures
        t2.modes_spec() == t0.modes_spec(),
        t2.primary_spec() == t0.primary_spec(),
        t2.active_spec() == t0.active_spec(),
{
}

/// Restoring the cursor right after saving it brings back the cursor and the attributes and
/// leaves the rows as they were.
pub proof fn law_save_then_restore_cursor(t0: TerminalState, t1: TerminalState, t2: TerminalState)
    requires
        t0.wf(),
        t0.save_cursor_effect(&t1),
        t1.restore_cursor_effect(&t2),
    ensures
        t2.active_spec().cursor == t0.active_spec().cursor,
        t2.active_spec().attrs == t0.active_spec().attrs,
        t2.active_spec().lines() == t0.active_spec().lines(),
        t2.modes_spec() == t0.modes_spec(),
{
}

/// Of two settings of one private mode, the last wins.
pub proof fn law_mode_last_wins(m: TerminalModes, mode: u16, first: bool, second: bool)
    ensures
        mode_set(mode_set(m, mode, first), mode, second) == mode_set(m, mode, second),
{
    if mode == 1 {
    } else if mode == 7 {
    } else if mode == 25 {
    } else if mode == 1000 {
    } else if mode == 1002 {
    } else if mode == 1003 {
    } else if mode == 1004 {
    } else if mode == 1006 {
    } else if mode == 2004 {
    } else {
    }
}

/// Settings of two different private modes do not interfere: their order does not matter.
pub proof fn law_modes_independent(m: TerminalModes, a: u16, ea: bool, b: u16, eb: bool)
    requires
        a != b,
    ensures
        mode_set(mode_set(m, a, ea), b, eb) == mode_set(mode_set(m, b, eb), a, ea),
{
    lemma_mode_set_commutes(m, a, ea, b, eb);
}

/// Setting private mode `a` and then `b` is setting `b` and then `a`, case by case on `b`.
#[verifier::spinoff_prover]
#[verifier::rlimit(100)]
proof fn lemma_mode_set_commutes(m: TerminalModes, a: u16, ea: bool, b: u16, eb: bool)
    requires
        a != b,
    ensures
        mode_set(mode_set(m, a, ea), b, eb) == mode_set(mode_set(m, b, eb), a, ea),
{
    if b == 1 {
    } else if b == 7 {
    } else if b == 25 {
    } else if b == 1000 {
    } else if b == 1002 {
    } else if b == 1003 {
    } else if b == 1004 {
    } else if b == 1006 {
    } else if b == 2004 {
    } else {
    }
}

/// With any-motion tracking (1003) on, the mouse is tracked in any motion, whatever other
/// tracking modes are on; with it off and button-motion tracking (1002) on, in button motion.
pub proof fn law_highest_mouse_mode_wins(m: TerminalModes)
    ensures
        tracking_of(mode_set(m, 1003, true).mouse) == MouseTrackingMode::AnyMotion,
        !m.mouse.any_motion ==> tracking_of(mode_set(m, 1002, true).mouse) == MouseTrackingMode::ButtonMotion,
        tracking_of(mode_set(mode_set(mode_set(m, 1000, false), 1002, false), 1003, false).mouse)
            == MouseTrackingMode::Disabled,
{
}

/// A line feed on the primary screen keeps the scrollback within its limit.
pub proof fn law_linefeed_keeps_scrollback_limit(t0: TerminalState, t1: TerminalState)
    requires
        t0.wf(),
        !t0.modes_spec().alternate_screen,
        t0.primary_spec().history() <= t0.limit_spec(),
        t0.linefeed_effect(&t1),
    ensures
        t1.primary_spec().history() <= t1.limit_spec(),
{
}

/// A line feed on the bottom line of a scroll region that starts at the top of the primary
/// screen pushes the top screen line into the scrollback: while the scrollback has room, it
/// grows by one row, its newest row is the former top line, and the rows above stay.
pub proof fn law_linefeed_pushes_top_line_into_scrollback(t0: TerminalState, t1: TerminalState)
    requires
        t0.wf(),
        !t0.modes_spec().alternate_screen,
        t0.primary_spec().cursor.row == t0.primary_spec().scroll_bottom,
        t0.primary_spec().scroll_top == 0,
        t0.primary_spec().history() < t0.limit_spec(),
        t0.linefeed_effect(&t1),
    ensures
        t1.primary_spec().len() == t0.primary_spec().len() + 1,
        t1.primary_spec().history() == t0.primary_spec().history() + 1,
        forall|j: int| 0 <= j <= t0.primary_spec().history() ==> #[trigger] t1.primary_spec().lines()[j] == t0.primary_spec().lines()[j],
{
    let b = t0.primary_spec();
    let nb = t1.primary_spec();
    let sub = ScreenBuffer { current_input_start: reconciled(nb.rows.rows(), b.current_input_start), pending_wrap: b.pending_wrap, ..nb };
    let limit = t0.limit_spec();
    let mid = choose|mid: ScreenBuffer| b.scrolled(&mid) && b.scrolled_up_range(&mid, b.scroll_top, b.scroll_bottom, 1, t0.cols_spec() as usize, limit, t0.seqno_spec())
        && #[trigger] mid.trimmed_to(&sub, limit);
    assert(b.scroll_step(b.scroll_top, b.scroll_bottom, 1) == 1);
    assert(mid.len() == b.len() + 1);
    assert(sub.lines() == nb.lines());
    assert(mid.lines() == nb.lines());
}

/// A line feed that scrolls a scroll region starting at the top of the primary screen, while
/// the scrollback has room, keeps the stable numbering of rows where it was; a view at the
/// bottom stays at the bottom and its top moves one row on, and a view scrolled back keeps its
/// top on the same row.
pub proof fn law_linefeed_view_follows(t0: TerminalState, t1: TerminalState)
    requires
        t0.wf(),
        !t0.modes_spec().alternate_screen,
        t0.primary_spec().cursor.row == t0.primary_spec().scroll_bottom,
        t0.primary_spec().scroll_top == 0,
        t0.primary_spec().history() < t0.limit_spec(),
        t0.linefeed_effect(&t1),
    ensures
        t1.primary_spec().stable_row_offset == t0.primary_spec().stable_row_offset,
        t0.primary_spec().display_offset == 0 ==> t1.primary_spec().display_offset == 0,
        t0.primary_spec().display_offset == 0 ==> t1.primary_spec().viewport_top_spec() == t0.primary_spec().viewport_top_spec() + 1,
        t0.primary_spec().display_offset != 0 ==> t1.primary_spec().display_offset == t0.primary_spec().display_offset + 1,
        t0.primary_spec().display_offset != 0 ==> t1.primary_spec().viewport_top_spec() == t0.primary_spec().viewport_top_spec(),
{
    let b = t0.primary_spec();
    let nb = t1.primary_spec();
    let sub = ScreenBuffer { current_input_start: reconciled(nb.rows.rows(), b.current_input_start), pending_wrap: b.pending_wrap, ..nb };
    let limit = t0.limit_spec();
    let mid = choose|mid: ScreenBuffer| b.scrolled(&mid) && b.scrolled_up_range(&mid, b.scroll_top, b.scroll_bottom, 1, t0.cols_spec() as usize, limit, t0.seqno_spec())
        && #[trigger] mid.trimmed_to(&sub, limit) && mid.scrollback_trimmed(&sub, limit);
    assert(b.scroll_step(b.scroll_top, b.scroll_bottom, 1) == 1);
    assert(mid.len() == b.len() + 1);
}

/// Resizing gives the size asked for, each side at least one. Asking for the size the
/// terminal already has changes nothing; otherwise a cursor that was on the screen stays on
/// it, and the modes stay as they were, the choice of the alternate screen among them.
pub proof fn law_resize_keeps_cursor_and_modes(t0: TerminalState, t1: TerminalState, rows: u16, cols: u16)
    requires
        t0.wf(),
        t0.active_spec().cursor.row < t0.rows_spec(),
        t0.active_spec().cursor.col < t0.cols_spec(),
        t0.resize_effect(&t1, rows, cols),
    ensures
        t1.rows_spec() == (if rows > 1 { rows } else { 1 }),
        t1.cols_spec() == (if cols > 1 { cols } else { 1 }),
        ((if rows > 1 { rows } else { 1 }) == t0.rows_spec() && (if cols > 1 { cols } else { 1 }) == t0.cols_spec()) ==> t0.same_as(&t1),
        t1.active_spec().cursor.row < t1.rows_spec(),
        t1.active_spec().cursor.col < t1.cols_spec(),
        t1.modes_spec() == t0.modes_spec(),
{
}

/// Printing a one-column character with no wrap pending writes it at the cursor: reading that
/// cell back gives the character with the attributes in force, the cursor moves one column
/// right (or stays on the last column), and no row comes or goes.
pub proof fn law_print_then_read(b0: ScreenBuffer, b1: ScreenBuffer, c: char, cols: u16, seqno: u64, wraparound: bool, limit: usize)
    requires
        b0.wf(),
        !b0.pending_wrap,
        b0.cursor.col < (if cols > 1 { cols } else { 1 }),
        b0.printed(&b1, c, Some(1), cols, seqno, wraparound, limit),
    ensures
        b1.lines()[b0.abs_row(b0.cursor.row as int)].0[b0.cursor.col as int] == char_cell(c, 1, b0.attrs),
        b1.cursor.row == b0.cursor.row,
        b1.cursor.col == col_after(b0.cursor.col as int, 1, (if cols > 1 { cols } else { 1 }) as int),
        b1.len() == b0.len(),
        b1.display_offset == b0.display_offset,
        b1.stable_row_offset == b0.stable_row_offset,
{
    let width = (if cols > 1 { cols } else { 1 }) as int;
    let col = b0.cursor.col as int;
    let abs = b0.abs_row(b0.cursor.row as int);
    let cell = char_cell(c, 1, b0.attrs);
    let v = resize_view(b0.lines()[abs].0, width);
    assert(v.len() == width);
    let x = written_view(v, col, width, cell);
    assert(x.len() == width);
    assert(x[col] == cell);
    assert(col > 0 ==> !x[col - 1].2);
    lemma_resize_view_full(x, width);
    lemma_normalize_from_keeps_narrow(x, 0, col, width);
    lemma_normalize_from_len(x, 0, width);
    let y = normalize_from(x, 0, width);
    if col > 0 {
        lemma_normalize_from_no_new_wide(x, 0, width, col - 1);
    }
    lemma_resize_view_full(y, width);
    lemma_normalize_from_keeps_narrow(y, 0, col, width);
}

/// What each single SGR value does to the attributes `a`: 0 resets them; 1 sets bold and 2
/// dim, each clearing the other; 3 sets italic, 4 underline, 7 inverse; 22 clears bold and dim,
/// 23 italic, 24 underline, 27 inverse; 30 to 37 and 90 to 97 pick the foreground colours 0 to
/// 7 and 8 to 15, 40 to 47 and 100 to 107 the background ones; 39 and 49 bring back the default
/// foreground and background. Every other attribute stays, and a value outside these (38 and 48
/// alone among them) changes nothing.
pub proof fn law_sgr_single_value(a: CellAttributes, x: u16)
    ensures
        sgr_from(a, seq![0u16], 0) == default_attrs(),
        sgr_from(a, seq![1u16], 0) == (CellAttributes { bold: true, dim: false, ..a }),
        sgr_from(a, seq![2u16], 0) == (CellAttributes { bold: false, dim: true, ..a }),
        sgr_from(a, seq![3u16], 0) == (CellAttributes { italic: true, ..a }),
        sgr_from(a, seq![4u16], 0) == (CellAttributes { underline: true, ..a }),
        sgr_from(a, seq![7u16], 0) == (CellAttributes { inverse: true, ..a }),
        sgr_from(a, seq![22u16], 0) == (CellAttributes { bold: false, dim: false, ..a }),
        sgr_from(a, seq![23u16], 0) == (CellAttributes { italic: false, ..a }),
        sgr_from(a, seq![24u16], 0) == (CellAttributes { underline: false, ..a }),
        sgr_from(a, seq![27u16], 0) == (CellAttributes { inverse: false, ..a }),
        sgr_from(a, seq![39u16], 0) == (CellAttributes { fg: TerminalColor::Default, ..a }),
        sgr_from(a, seq![49u16], 0) == (CellAttributes { bg: TerminalColor::Default, ..a }),
        30 <= x <= 37 ==> sgr_from(a, seq![x], 0) == (CellAttributes { fg: TerminalColor::Indexed((x - 30) as u8), ..a }),
        40 <= x <= 47 ==> sgr_from(a, seq![x], 0) == (CellAttributes { bg: TerminalColor::Indexed((x - 40) as u8), ..a }),
        90 <= x <= 97 ==> sgr_from(a, seq![x], 0) == (CellAttributes { fg: TerminalColor::Indexed((x - 82) as u8), ..a }),
        100 <= x <= 107 ==> sgr_from(a, seq![x], 0) == (CellAttributes { bg: TerminalColor::Indexed((x - 92) as u8), ..a }),
        !(x <= 4 || x == 7 || 22 <= x <= 24 || x == 27 || 30 <= x <= 37 || x == 39 || 40 <= x <= 47 || x == 49
            || 90 <= x <= 97 || 100 <= x <= 107) ==> sgr_from(a, seq![x], 0) == a,
{
    lemma_sgr_single(a, seq![0u16]);
    lemma_sgr_single(a, seq![1u16]);
    lemma_sgr_single(a, seq![2u16]);
    lemma_sgr_single(a, seq![3u16]);
    lemma_sgr_single(a, seq![4u16]);
    lemma_sgr_single(a, seq![7u16]);
    lemma_sgr_single(a, seq![22u16]);
    lemma_sgr_single(a, seq![23u16]);
    lemma_sgr_single(a, seq![24u16]);
    lemma_sgr_single(a, seq![27u16]);
    lemma_sgr_single(a, seq![39u16]);
    lemma_sgr_single(a, seq![49u16]);
    lemma_sgr_single(a, seq![x]);
    assert(seq![x][0] == x);
}

/// SGR values apply one after another: a value other than 38 and 48 (which take the values after
/// them) acts on its own, and the values after it act on what it gave.
pub proof fn law_sgr_values_in_turn(a: CellAttributes, x: u16, rest: Seq<u16>)
    requires
        x != 38,
        x != 48,
    ensures
        sgr_from(a, seq![x] + rest, 0) == sgr_from(sgr_from(a, seq![x], 0), rest, 0),
{
    let b = sgr_from(a, seq![x], 0);
    let v = seq![x] + rest;
    assert(v[0] == x);
    assert(seq![x][0] == x);
    lemma_sgr_single(a, seq![x]);
    assert(sgr_step(a, v, 0) == sgr_step(a, seq![x], 0));
    lemma_sgr_from_shift(b, seq![x], rest, 1);
    assert(sgr_from(a, v, 0) == sgr_from(b, v, 1));
}

/// An extended colour after 38 sets the foreground and after 48 the background: 5 and an index,
/// or 2 and red, green and blue, each cut to a byte; the values it took are not read again, and
/// the other attributes stay.
pub proof fn law_sgr_extended_colors(a: CellAttributes, n: u16, r: u16, g: u16, b: u16, rest: Seq<u16>)
    ensures
        sgr_from(a, seq![38u16, 5, n] + rest, 0) == sgr_from(CellAttributes { fg: TerminalColor::Indexed((n % 256) as u8), ..a }, rest, 0),
        sgr_from(a, seq![48u16, 5, n] + rest, 0) == sgr_from(CellAttributes { bg: TerminalColor::Indexed((n % 256) as u8), ..a }, rest, 0),
        sgr_from(a, seq![38u16, 2, r, g, b] + rest, 0) == sgr_from(
            CellAttributes { fg: TerminalColor::Rgb((r % 256) as u8, (g % 256) as u8, (b % 256) as u8), ..a },
            rest,
            0,
        ),
        sgr_from(a, seq![48u16, 2, r, g, b] + rest, 0) == sgr_from(
            CellAttributes { bg: TerminalColor::Rgb((r % 256) as u8, (g % 256) as u8, (b % 256) as u8), ..a },
            rest,
            0,
        ),
{
    let p3a = seq![38u16, 5, n];
    let p3b = seq![48u16, 5, n];
    let p5a = seq![38u16, 2, r, g, b];
    let p5b = seq![48u16, 2, r, g, b];
    assert((p3a + rest)[0] == 38 && (p3a + rest)[1] == 5 && (p3a + rest)[2] == n);
    assert((p3b + rest)[0] == 48 && (p3b + rest)[1] == 5 && (p3b + rest)[2] == n);
    assert((p5a + rest)[0] == 38 && (p5a + rest)[1] == 2 && (p5a + rest)[2] == r && (p5a + rest)[3] == g && (p5a + rest)[4] == b);
    assert((p5b + rest)[0] == 48 && (p5b + rest)[1] == 2 && (p5b + rest)[2] == r && (p5b + rest)[3] == g && (p5b + rest)[4] == b);
    lemma_sgr_from_shift(CellAttributes { fg: TerminalColor::Indexed((n % 256) as u8), ..a }, p3a, rest, 3);
    lemma_sgr_from_shift(CellAttributes { bg: TerminalColor::Indexed((n % 256) as u8), ..a }, p3b, rest, 3);
    lemma_sgr_from_shift(CellAttributes { fg: TerminalColor::Rgb((r % 256) as u8, (g % 256) as u8, (b % 256) as u8), ..a }, p5a, rest, 5);
    lemma_sgr_from_shift(CellAttributes { bg: TerminalColor::Rgb((r % 256) as u8, (g % 256) as u8, (b % 256) as u8), ..a }, p5b, rest, 5);
}

/// How the keyboard selection focus moves over the cells of the viewport, counted row by row:
/// down and up keep the column and change the row by one (down from the last row goes one past
/// the last cell, up from the first row to the first cell), and one undoes the other; right and
/// left go to the next and the previous cell, and left undoes right; home goes to the first
/// cell of the row and end one past its last.
pub proof fn law_selection_focus_moves(t: TerminalState, focus: int)
    requires
        t.wf(),
        0 <= focus < t.rows_spec() * t.cols_spec(),
    ensures
        ({
            let cols = t.cols_spec() as int;
            let rows = t.rows_spec() as int;
            let total = rows * cols;
            let row = linear_cell(focus, cols).row as int;
            let col = linear_cell(focus, cols).col;
            &&& focus == row * cols + col
            &&& row + 1 < rows ==> moved_focus(t, focus, SelectionMove::Down) == focus + cols
            &&& row + 1 < rows ==> linear_cell(moved_focus(t, focus, SelectionMove::Down), cols) == (CellPos { row: (row + 1) as u16, col })
            &&& row + 1 == rows ==> moved_focus(t, focus, SelectionMove::Down) == total
            &&& row >= 1 ==> moved_focus(t, focus, SelectionMove::Up) == focus - cols
            &&& row >= 1 ==> linear_cell(moved_focus(t, focus, SelectionMove::Up), cols) == (CellPos { row: (row - 1) as u16, col })
            &&& row == 0 ==> moved_focus(t, focus, SelectionMove::Up) == 0
            &&& row + 1 < rows ==> moved_focus(t, moved_focus(t, focus, SelectionMove::Down), SelectionMove::Up) == focus
            &&& row >= 1 ==> moved_focus(t, moved_focus(t, focus, SelectionMove::Up), SelectionMove::Down) == focus
            &&& moved_focus(t, focus, SelectionMove::Right) == focus + 1
            &&& moved_focus(t, moved_focus(t, focus, SelectionMove::Right), SelectionMove::Left) == focus
            &&& focus >= 1 ==> moved_focus(t, focus, SelectionMove::Left) == focus - 1
            &&& moved_focus(t, focus, SelectionMove::Home) == focus - col
            &&& linear_cell(moved_focus(t, focus, SelectionMove::Home), cols) == (CellPos { row: row as u16, col: 0 })
            &&& moved_focus(t, focus, SelectionMove::End) == if row + 1 < rows { focus - col + cols } else { total }
        }),
{
    let cols = t.cols_spec() as int;
    let rows = t.rows_spec() as int;
    let q = focus / cols;
    let r = focus % cols;
    vstd::arithmetic::div_mod::lemma_fundamental_div_mod(focus, cols);
    assert(0 <= r < cols);
    assert(q * cols == cols * q) by (nonlinear_arith);
    assert(0 <= q < rows) by (nonlinear_arith)
        requires
            focus == cols * q + r,
            0 <= r < cols,
            0 <= focus < rows * cols,
            cols >= 1,
    ;
    assert(rows <= 0xffff);
    assert(q % 0x10000 == q);
    assert(r % 0x10000 == r);
    assert(linear_cell(focus, cols) == CellPos { row: q as u16, col: r as u16 });
    assert(rows * cols == (rows - 1) * cols + cols) by (nonlinear_arith);
    assert((q + 1) * cols == q * cols + cols) by (nonlinear_arith);
    assert((q - 1) * cols == q * cols - cols) by (nonlinear_arith);
    if q + 1 < rows {
        assert((q + 1) * cols < rows * cols) by (nonlinear_arith)
            requires
                q + 1 < rows,
                cols >= 1,
        ;
        assert((q + 1) * cols + r < rows * cols) by (nonlinear_arith)
            requires
                q + 2 <= rows,
                0 <= r < cols,
                cols >= 1,
        ;
        assert(focus + cols < rows * cols);
        vstd::arithmetic::div_mod::lemma_fundamental_div_mod_converse(focus + cols, cols, q + 1, r);
        assert((q + 1) % 0x10000 == q + 1);
    } else {
        assert(q * cols + cols == rows * cols) by (nonlinear_arith)
            requires
                q + 1 == rows,
        ;
    }
    if q >= 1 {
        vstd::arithmetic::div_mod::lemma_fundamental_div_mod_converse(focus - cols, cols, q - 1, r);
        assert((q - 1) % 0x10000 == q - 1);
        assert(focus - cols + cols < rows * cols);
    }
    if q == 0 {
        assert(cols * q == 0) by (nonlinear_arith)
            requires
                q == 0,
        ;
        assert(focus == r);
    }
    vstd::arithmetic::div_mod::lemma_fundamental_div_mod_converse(focus - r, cols, q, 0);
    assert(0int % 0x10000 == 0);
    assert(focus + 1 <= rows * cols);
}

/// Erasing the whole display (mode 2, as `clear` asks) leaves every row of the screen in use
/// blank, as wide as the screen, while the scrollback rows, the number of rows and the cursor
/// stay as they were.
pub proof fn law_erase_whole_display(t0: TerminalState, t1: TerminalState)
    requires
        t0.wf(),
        t0.erase_in_display_effect(&t1, 2),
    ensures
        ({
            let b = t0.active_spec();
            let nb = t1.active_spec();
            &&& nb.len() == b.len()
            &&& nb.visible_rows == b.visible_rows
            &&& nb.cursor == b.cursor
            &&& forall|r: int| 0 <= r < t0.rows_spec() ==> is_blank_line(
                #[trigger] nb.lines()[nb.live_start_spec() + r],
                t0.cols_spec() as int,
                t0.seqno_spec(),
            )
            &&& forall|i: int| 0 <= i < b.live_start_spec() ==> #[trigger] nb.lines()[i] == b.lines()[i]
        }),
{
    let b = t0.active_spec();
    b.rows.lemma_wf();
    lemma_cleared_screen_rows(b.lines(), b.live_start_spec(), b.visible_rows as int, 0, b.visible_rows as int, t0.cols_spec() as int, t0.seqno_spec());
}

/// Text copied across rows is the text of the first row from the start column to its end,
/// a line break unless that row wraps into the next, then the text copied from the first
/// column of the next row on; the text of one row between two columns is that of its cells
/// there, and a row no longer held gives none.
pub proof fn law_contents_first_row(b: ScreenBuffer, start: int, sc: u16, end: int, ec: u16, cols: u16)
    requires
        start < end,
    ensures
        contents_spec(b, start, sc, end, ec, cols) == contents_spec(b, start, sc, start, cols, cols)
            + (if 0 <= start - b.stable_row_offset < b.len() && !b.lines()[start - b.stable_row_offset].2 {
                seq!['\n']
            } else {
                Seq::<char>::empty()
            }) + contents_spec(b, start + 1, 0, end, ec, cols),
        0 <= start - b.stable_row_offset < b.len() ==> contents_spec(b, start, sc, start, ec, cols) == text_view(
            b.lines()[start - b.stable_row_offset].0,
            if sc < cols { sc as int } else { cols as int },
            if ec < cols { ec as int } else { cols as int },
        ),
        !(0 <= start - b.stable_row_offset < b.len()) ==> contents_spec(b, start, sc, start, ec, cols) == Seq::<char>::empty(),
{
    let nl = if 0 <= start - b.stable_row_offset < b.len() && !b.lines()[start - b.stable_row_offset].2 {
        seq!['\n']
    } else {
        Seq::<char>::empty()
    };
    assert(row_text(b, start, start, end, sc, ec, cols) == contents_spec(b, start, sc, start, cols, cols) + nl);
    if start + 1 < end {
        lemma_rows_text_first(b, start, end + 1, end, sc, ec, cols);
    } else {
        assert(rows_text(b, start, start, end, sc, ec, cols) =~= Seq::<char>::empty());
        assert(rows_text(b, start, start + 1, end, sc, ec, cols) =~= row_text(b, start, start, end, sc, ec, cols));
        assert(row_text(b, end, start, end, sc, ec, cols) == contents_spec(b, end, 0, end, ec, cols));
    }
}

/// Inserting `count` lines (at least one) with the cursor in the scroll region leaves the
/// screen rows above the cursor row and below the region as they were, blanks `count` rows from
/// the cursor row on (as many as the region has left), and moves the rows from the cursor row
/// down by that many within the region, the rows pushed past its bottom dropping out. With the
/// cursor outside the region nothing changes.
pub proof fn law_insert_lines_at_cursor(b0: ScreenBuffer, b1: ScreenBuffer, count: u16, cols: u16, seqno: u64)
    requires
        b0.wf(),
        b0.lines_inserted(&b1, count, cols, seqno),
    ensures
        ({
            let c = b0.cursor.row as int;
            let bottom = b0.scroll_bottom as int;
            let live = b0.live_start_spec();
            let want = if count > 1 { count as int } else { 1 };
            let p = if want < bottom + 1 - c { want } else { bottom + 1 - c };
            let w = if cols > 1 { cols as int } else { 1 };
            &&& b1.len() == b0.len()
            &&& b1.cursor == b0.cursor
            &&& b0.scroll_top <= c <= bottom ==> {
                &&& forall|r: int| 0 <= r < c ==> #[trigger] b1.lines()[live + r] == b0.lines()[live + r]
                &&& forall|r: int| c <= r < c + p ==> is_blank_line(#[trigger] b1.lines()[live + r], w, seqno)
                &&& forall|r: int| c + p <= r <= bottom ==> #[trigger] b1.lines()[live + r] == b0.lines()[live + r - p]
                &&& forall|r: int| bottom < r < b0.visible_rows ==> #[trigger] b1.lines()[live + r] == b0.lines()[live + r]
            }
            &&& !(b0.scroll_top <= c <= bottom) ==> b1 == b0
        }),
{
}

/// Deleting `count` lines (at least one) with the cursor in the scroll region leaves the
/// screen rows above the cursor row and below the region as they were, moves the rows below the
/// deleted ones up to the cursor row, and brings blank rows in at the bottom of the region, as
/// many as were deleted (at most the rows from the cursor to the bottom of the region). With the
/// cursor outside the region nothing changes.
pub proof fn law_delete_lines_at_cursor(b0: ScreenBuffer, b1: ScreenBuffer, count: u16, cols: u16, seqno: u64)
    requires
        b0.wf(),
        b0.lines_deleted(&b1, count, cols, seqno),
    ensures
        ({
            let c = b0.cursor.row as int;
            let bottom = b0.scroll_bottom as int;
            let live = b0.live_start_spec();
            let want = if count > 1 { count as int } else { 1 };
            let p = if want < bottom + 1 - c { want } else { bottom + 1 - c };
            let w = if cols > 1 { cols as int } else { 1 };
            &&& b1.len() == b0.len()
            &&& b1.cursor == b0.cursor
            &&& b0.scroll_top <= c <= bottom ==> {
                &&& forall|r: int| 0 <= r < c ==> #[trigger] b1.lines()[live + r] == b0.lines()[live + r]
                &&& forall|r: int| c <= r <= bottom - p ==> #[trigger] b1.lines()[live + r] == b0.lines()[live + r + p]
                &&& forall|r: int| bottom - p < r <= bottom ==> is_blank_line(#[trigger] b1.lines()[live + r], w, seqno)
                &&& forall|r: int| bottom < r < b0.visible_rows ==> #[trigger] b1.lines()[live + r] == b0.lines()[live + r]
            }
            &&& !(b0.scroll_top <= c <= bottom) ==> b1 == b0
        }),
{
    let c = b0.cursor.row as int;
    let bottom = b0.scroll_bottom as int;
    let live = b0.live_start_spec();
    let want = if count > 1 { count as int } else { 1 };
    let p = if want < bottom + 1 - c { want } else { bottom + 1 - c };
    let w = if cols > 1 { cols as int } else { 1 };
    if b0.scroll_top <= c <= bottom && c == 0 {
        assert(b0.scroll_step(b0.cursor.row, b0.scroll_bottom, want as usize) == p);
        assert(b0.top_lines_scrolled_up(b1.lines(), bottom + 1, p, cols as usize, 0, seqno));
        assert forall|r: int| bottom - p < r <= bottom implies is_blank_line(#[trigger] b1.lines()[live + r], w, seqno) by {
            assert(b0.top_rows_added(p, 0) == 0);
            assert(is_blank_line(b1.lines()[(live + b0.top_rows_added(p, 0)) + r], w, seqno));
        }
    }
}

/// Inserting `count` blank cells (at least one) at the cursor, on a cursor row of full width
/// with no wide characters, keeps the cells before the cursor, puts blank cells from the cursor
/// on, and moves the cells from the cursor right by that many, those pushed past the last column
/// lost; the other rows and the cursor stay.
pub proof fn law_insert_blank_chars_at_cursor(t0: TerminalState, t1: TerminalState, count: u16)
    requires
        t0.wf(),
        t0.insert_blank_chars_effect(&t1, count),
        t0.active_spec().lines()[t0.active_spec().abs_row(t0.active_spec().cursor.row as int)].0.len() == t0.cols_spec(),
        plain_cells(t0.active_spec().lines()[t0.active_spec().abs_row(t0.active_spec().cursor.row as int)].0),
    ensures
        ({
            let b = t0.active_spec();
            let nb = t1.active_spec();
            let a = b.abs_row(b.cursor.row as int);
            let old_row = b.lines()[a].0;
            let new_row = nb.lines()[a].0;
            let c = b.cursor.col as int;
            let n = if count > 1 { count as int } else { 1 };
            let w = t0.cols_spec() as int;
            &&& new_row.len() == w
            &&& forall|i: int| 0 <= i < c ==> #[trigger] new_row[i] == old_row[i]
            &&& forall|i: int| c <= i < w && i < c + n ==> #[trigger] new_row[i] == blank_view()
            &&& forall|i: int| c + n <= i < w ==> #[trigger] new_row[i] == old_row[i - n]
            &&& forall|j: int| 0 <= j < b.len() && j != a ==> #[trigger] nb.lines()[j] == b.lines()[j]
            &&& nb.len() == b.len()
            &&& nb.cursor == b.cursor
        }),
{
    let b = t0.active_spec();
    let a = b.abs_row(b.cursor.row as int);
    let w = t0.cols_spec() as int;
    let n = if count > 1 { count as int } else { 1 };
    b.rows.lemma_wf();
    let old_row = b.lines()[a].0;
    lemma_resize_view_full(old_row, w);
    let v = insert_blanks_view(old_row, b.cursor.col as int, n);
    assert(plain_cells(v));
    lemma_normalize_view_plain(v, w);
    assert(rewritten(v, w) == v);
}

/// Deleting `count` cells (at least one) at the cursor, on a cursor row of full width with no
/// wide characters, keeps the cells before the cursor, pulls the cells after the deleted ones
/// left to the cursor, and brings blank cells in at the end of the row; the other rows and the
/// cursor stay.
pub proof fn law_delete_chars_at_cursor(t0: TerminalState, t1: TerminalState, count: u16)
    requires
        t0.wf(),
        t0.delete_chars_effect(&t1, count),
        t0.active_spec().lines()[t0.active_spec().abs_row(t0.active_spec().cursor.row as int)].0.len() == t0.cols_spec(),
        plain_cells(t0.active_spec().lines()[t0.active_spec().abs_row(t0.active_spec().cursor.row as int)].0),
    ensures
        ({
            let b = t0.active_spec();
            let nb = t1.active_spec();
            let a = b.abs_row(b.cursor.row as int);
            let old_row = b.lines()[a].0;
            let new_row = nb.lines()[a].0;
            let c = b.cursor.col as int;
            let n = if count > 1 { count as int } else { 1 };
            let w = t0.cols_spec() as int;
            &&& new_row.len() == w
            &&& forall|i: int| 0 <= i < c ==> #[trigger] new_row[i] == old_row[i]
            &&& forall|i: int| c <= i && i + n < w ==> #[trigger] new_row[i] == old_row[i + n]
            &&& forall|i: int| c <= i < w && w <= i + n ==> #[trigger] new_row[i] == blank_view()
            &&& forall|j: int| 0 <= j < b.len() && j != a ==> #[trigger] nb.lines()[j] == b.lines()[j]
            &&& nb.len() == b.len()
            &&& nb.cursor == b.cursor
        }),
{
    let b = t0.active_spec();
    let a = b.abs_row(b.cursor.row as int);
    let w = t0.cols_spec() as int;
    let n = if count > 1 { count as int } else { 1 };
    b.rows.lemma_wf();
    let old_row = b.lines()[a].0;
    lemma_resize_view_full(old_row, w);
    let v = delete_cells_view(old_row, b.cursor.col as int, n);
    assert(plain_cells(v));
    lemma_normalize_view_plain(v, w);
    assert(rewritten(v, w) == v);
}

/// Erasing `count` cells (at least one) from the cursor, on a cursor row of full width with no
/// wide characters, blanks the cells from the cursor up to `count` of them (or to the end of the
/// row) and keeps every other cell, row and the cursor.
pub proof fn law_erase_chars_at_cursor(t0: TerminalState, t1: TerminalState, count: u16)
    requires
        t0.wf(),
        t0.erase_chars_effect(&t1, count),
        t0.active_spec().lines()[t0.active_spec().abs_row(t0.active_spec().cursor.row as int)].0.len() == t0.cols_spec(),
        plain_cells(t0.active_spec().lines()[t0.active_spec().abs_row(t0.active_spec().cursor.row as int)].0),
    ensures
        ({
            let b = t0.active_spec();
            let nb = t1.active_spec();
            let a = b.abs_row(b.cursor.row as int);
            let old_row = b.lines()[a].0;
            let new_row = nb.lines()[a].0;
            let c = b.cursor.col as int;
            let n = if count > 1 { count as int } else { 1 };
            let w = t0.cols_spec() as int;
            &&& new_row.len() == w
            &&& forall|i: int| 0 <= i < w ==> #[trigger] new_row[i] == if c <= i < c + n { blank_view() } else { old_row[i] }
            &&& forall|j: int| 0 <= j < b.len() && j != a ==> #[trigger] nb.lines()[j] == b.lines()[j]
            &&& nb.len() == b.len()
            &&& nb.cursor == b.cursor
        }),
{
    let b = t0.active_spec();
    let a = b.abs_row(b.cursor.row as int);
    let w = t0.cols_spec() as int;
    let n = if count > 1 { count as int } else { 1 };
    let c = b.cursor.col as int;
    b.rows.lemma_wf();
    let old_row = b.lines()[a].0;
    lemma_resize_view_full(old_row, w);
    let lo = if c < w { c } else { w };
    let hi = if c + n < w { c + n } else { w };
    lemma_clear_cols_plain(old_row, lo, hi, w);
    lemma_normalize_view_plain(clear_cols(old_row, lo, hi, w), w);
}

/// Erasing in the cursor row, on a row of full width with no wide characters: mode 0 blanks
/// from the cursor to the end of the row, mode 1 from the start of the row to the cursor, and
/// mode 2 the whole row; every other cell, the other rows and the cursor stay.
pub proof fn law_erase_in_line_at_cursor(t0: TerminalState, t1: TerminalState, mode: u16)
    requires
        t0.wf(),
        t0.erase_in_line_effect(&t1, mode),
        t0.active_spec().lines()[t0.active_spec().abs_row(t0.active_spec().cursor.row as int)].0.len() == t0.cols_spec(),
        plain_cells(t0.active_spec().lines()[t0.active_spec().abs_row(t0.active_spec().cursor.row as int)].0),
    ensures
        ({
            let b = t0.active_spec();
            let nb = t1.active_spec();
            let a = b.abs_row(b.cursor.row as int);
            let old_row = b.lines()[a].0;
            let new_row = nb.lines()[a].0;
            let c = b.cursor.col as int;
            let w = t0.cols_spec() as int;
            &&& new_row.len() == w
            &&& mode == 0 ==> forall|i: int| 0 <= i < w ==> #[trigger] new_row[i] == if c <= i { blank_view() } else { old_row[i] }
            &&& mode == 1 ==> forall|i: int| 0 <= i < w ==> #[trigger] new_row[i] == if i <= c { blank_view() } else { old_row[i] }
            &&& mode == 2 ==> forall|i: int| 0 <= i < w ==> #[trigger] new_row[i] == blank_view()
            &&& forall|j: int| 0 <= j < b.len() && j != a ==> #[trigger] nb.lines()[j] == b.lines()[j]
            &&& nb.len() == b.len()
            &&& nb.cursor == b.cursor
        }),
{
    let b = t0.active_spec();
    let a = b.abs_row(b.cursor.row as int);
    let w = t0.cols_spec() as int;
    let c = b.cursor.col as int;
    b.rows.lemma_wf();
    let old_row = b.lines()[a].0;
    lemma_resize_view_full(old_row, w);
    let (start, end) = if mode == 1 { (0, c + 1) } else if mode == 2 { (0, w) } else { (c, w) };
    let lo = if start < w { start } else { w };
    let hi = if end < w { end } else { w };
    lemma_clear_cols_plain(old_row, lo, hi, w);
    lemma_normalize_view_plain(clear_cols(old_row, lo, hi, w), w);
}

/// Erasing in the display from the start of the screen to the cursor (mode 1) blanks the
/// screen rows above the cursor row and, on a cursor row of full width with no wide
/// characters, its cells up to and including the cursor; the rest of the cursor row, the rows
/// below it, the scrollback and the cursor stay. Erasing from the cursor to the end (mode 0)
/// blanks the rows below the cursor row and, on such a cursor row, its cells from the cursor on;
/// with the cursor past the first column, the rows above it stay as well. (The cursor is on the
/// screen.)
pub proof fn law_erase_display_around_cursor(t0: TerminalState, t1: TerminalState, mode: u16)
    requires
        t0.wf(),
        mode == 0 || mode == 1,
        t0.active_spec().cursor.row < t0.rows_spec(),
        t0.erase_in_display_effect(&t1, mode),
    ensures
        ({
            let b = t0.active_spec();
            let nb = t1.active_spec();
            let live = b.live_start_spec();
            let row = b.cursor.row as int;
            let a = live + row;
            let c = b.cursor.col as int;
            let w = t0.cols_spec() as int;
            let old_row = b.lines()[a].0;
            let plain = old_row.len() == w && plain_cells(old_row);
            &&& nb.len() == b.len()
            &&& nb.cursor == b.cursor
            &&& mode == 1 ==> {
                &&& forall|r: int| 0 <= r < row ==> is_blank_line(#[trigger] nb.lines()[live + r], w, t0.seqno_spec())
                &&& forall|i: int| 0 <= i < b.len() && !(live <= i <= a) ==> #[trigger] nb.lines()[i] == b.lines()[i]
                &&& plain ==> forall|i: int| 0 <= i < w ==> #[trigger] nb.lines()[a].0[i] == if i <= c { blank_view() } else { old_row[i] }
            }
            &&& mode == 0 ==> {
                &&& forall|r: int| row < r < b.visible_rows ==> is_blank_line(#[trigger] nb.lines()[live + r], w, t0.seqno_spec())
                &&& c > 0 ==> forall|i: int| 0 <= i < a ==> #[trigger] nb.lines()[i] == b.lines()[i]
                &&& plain ==> forall|i: int| 0 <= i < w ==> #[trigger] nb.lines()[a].0[i] == if c <= i { blank_view() } else { old_row[i] }
            }
        }),
{
    let b = t0.active_spec();
    let live = b.live_start_spec();
    let v = b.visible_rows as int;
    let row = b.cursor.row as int;
    let a = live + row;
    let c = b.cursor.col as int;
    let w = t0.cols_spec() as int;
    let seqno = t0.seqno_spec();
    b.rows.lemma_wf();
    assert(b.abs_row(row) == a);
    let old_row = b.lines()[a].0;
    if mode == 1 {
        lemma_cleared_screen_rows(b.lines(), live, v, 0, row, w, seqno);
        let l = cleared_screen_rows(b.lines(), live, v, 0, row, w, seqno);
        assert(l[a] == b.lines()[a]);
        if old_row.len() == w && plain_cells(old_row) {
            lemma_resize_view_full(old_row, w);
            let hi = if c + 1 < w { c + 1 } else { w };
            lemma_clear_cols_plain(old_row, 0, hi, w);
            lemma_normalize_view_plain(clear_cols(old_row, 0, hi, w), w);
        }
    } else {
        let l1 = if c == 0 { cleared_rows(b.lines(), erase_start(b), a, w, seqno) } else { b.lines() };
        lemma_erase_start(b);
        lemma_cleared_rows_len(b.lines(), erase_start(b), a, w, seqno);
        assert(l1.len() == b.len());
        let l2 = l1.update(a, cleared_line(l1[a], c, w, w, seqno));
        lemma_cleared_screen_rows(l2, live, v, row + 1, v, w, seqno);
        assert((b.cursor.row + 1) % 0x10000 == row + 1);
        if c == 0 {
            lemma_cleared_line_blank(l1[a], w, seqno);
        } else if old_row.len() == w && plain_cells(old_row) {
            lemma_resize_view_full(old_row, w);
            let lo = if c < w { c } else { w };
            lemma_clear_cols_plain(old_row, lo, w, w);
            lemma_normalize_view_plain(clear_cols(old_row, lo, w, w), w);
        }
    }
}

/// Moving the selection focus a word right from `focus` skips the spaces from there up to the
/// first cell `g` of another class, then the run of cells of the class of `g`, and stops on
/// the first cell of another class, or one past the last cell.
pub proof fn law_selection_word_right(t: TerminalState, focus: int)
    requires
        t.wf(),
        0 <= focus <= t.rows_spec() * t.cols_spec(),
    ensures
        ({
            let total = t.rows_spec() * t.cols_spec();
            let right = moved_focus(t, focus, SelectionMove::WordRight);
            let g = forward_over(t, focus, total, TextClass::Space);
            &&& focus <= g <= right <= total
            &&& forall|i: int| focus <= i < g ==> #[trigger] class_at(t, i) == TextClass::Space
            &&& g < total ==> class_at(t, g) != TextClass::Space
            &&& g == total ==> right == total
            &&& forall|i: int| g <= i < right ==> #[trigger] class_at(t, i) == class_at(t, g)
            &&& g < right < total ==> class_at(t, right) != class_at(t, g)
        }),
{
    let total = t.rows_spec() * t.cols_spec();
    let g = forward_over(t, focus, total, TextClass::Space);
    lemma_forward_over_stops(t, focus, total, TextClass::Space);
    if g < total {
        lemma_forward_over_stops(t, g, total, class_at(t, g));
    }
}

/// Moving the selection focus a word left from `focus` skips the spaces before it back to the
/// cell `g` after one of another class (or the first cell), then the run of cells before `g`
/// of the class of the cell before `g`, and stops on the first cell of that run.
pub proof fn law_selection_word_left(t: TerminalState, focus: int)
    requires
        t.wf(),
        0 <= focus,
    ensures
        ({
            let left = moved_focus(t, focus, SelectionMove::WordLeft);
            let g = back_over(t, focus, TextClass::Space);
            &&& 0 <= left <= g <= focus
            &&& forall|i: int| g <= i < focus ==> #[trigger] class_at(t, i) == TextClass::Space
            &&& g > 0 ==> class_at(t, g - 1) != TextClass::Space
            &&& g == 0 ==> left == 0
            &&& forall|i: int| left <= i < g ==> #[trigger] class_at(t, i) == class_at(t, g - 1)
            &&& 0 < left ==> class_at(t, left - 1) != class_at(t, g - 1)
        }),
{
    let g = back_over(t, focus, TextClass::Space);
    lemma_back_over_stops(t, focus, TextClass::Space);
    if g > 0 {
        lemma_back_over_stops(t, g, class_at(t, g - 1));
    }
}

/// What a CSI sequence with one parameter `k` asks for: the cursor moves, line and cell edits
/// and scrolls by `k`, or by one where `k` is zero; `G` and `d` go to column or row `k`
/// counted from one (the first where `k` is zero); `J`, `K` and `n` take `k` as it is.
pub proof fn law_csi_one_parameter(k: u16, rows: u16, r: TerminalOp, action: char)
    ensures
        ({
            let p = seq![seq![k]];
            let n = if k == 0 { 1u16 } else { k };
            &&& (action == '@' && is_standard_op(p, action, rows, r)) ==> r == TerminalOp::InsertBlankChars(n)
            &&& (action == 'A' && is_standard_op(p, action, rows, r)) ==> r == TerminalOp::CursorUp(n)
            &&& (action == 'B' && is_standard_op(p, action, rows, r)) ==> r == TerminalOp::CursorDown(n)
            &&& (action == 'C' && is_standard_op(p, action, rows, r)) ==> r == TerminalOp::CursorForward(n)
            &&& (action == 'D' && is_standard_op(p, action, rows, r)) ==> r == TerminalOp::CursorBack(n)
            &&& (action == 'E' && is_standard_op(p, action, rows, r)) ==> r == TerminalOp::CursorNextLine(n)
            &&& (action == 'F' && is_standard_op(p, action, rows, r)) ==> r == TerminalOp::CursorPrevLine(n)
            &&& (action == 'G' && is_standard_op(p, action, rows, r)) ==> r == TerminalOp::SetCursorCol((n - 1) as u16)
            &&& (action == 'J' && is_standard_op(p, action, rows, r)) ==> r == TerminalOp::EraseInDisplay(k)
            &&& (action == 'K' && is_standard_op(p, action, rows, r)) ==> r == TerminalOp::EraseInLine(k)
            &&& (action == 'L' && is_standard_op(p, action, rows, r)) ==> r == TerminalOp::InsertLines(n)
            &&& (action == 'M' && is_standard_op(p, action, rows, r)) ==> r == TerminalOp::DeleteLines(n)
            &&& (action == 'P' && is_standard_op(p, action, rows, r)) ==> r == TerminalOp::DeleteChars(n)
            &&& (action == 'S' && is_standard_op(p, action, rows, r)) ==> r == TerminalOp::ScrollUp(n)
            &&& (action == 'T' && is_standard_op(p, action, rows, r)) ==> r == TerminalOp::ScrollDown(n)
            &&& (action == 'X' && is_standard_op(p, action, rows, r)) ==> r == TerminalOp::EraseChars(n)
            &&& (action == 'd' && is_standard_op(p, action, rows, r)) ==> r == TerminalOp::SetCursorRow((n - 1) as u16)
            &&& (action == 'n' && is_standard_op(p, action, rows, r)) ==> r == TerminalOp::DeviceStatusReport(k)
        }),
{
    let p = seq![seq![k]];
    assert(p[0] == seq![k]);
    assert(p[0][0] == k);
}

/// What a CSI sequence without parameters asks for: a count of one, the first row or column,
/// and mode 0 for the erases.
pub proof fn law_csi_no_parameters(rows: u16, r: TerminalOp, action: char)
    ensures
        ({
            let p = Seq::<Seq<u16>>::empty();
            &&& (action == 'A' && is_standard_op(p, action, rows, r)) ==> r == TerminalOp::CursorUp(1)
            &&& (action == 'B' && is_standard_op(p, action, rows, r)) ==> r == TerminalOp::CursorDown(1)
            &&& (action == 'C' && is_standard_op(p, action, rows, r)) ==> r == TerminalOp::CursorForward(1)
            &&& (action == 'D' && is_standard_op(p, action, rows, r)) ==> r == TerminalOp::CursorBack(1)
            &&& (action == 'H' && is_standard_op(p, action, rows, r)) ==> r == TerminalOp::SetCursorPosition(0, 0)
            &&& (action == 'J' && is_standard_op(p, action, rows, r)) ==> r == TerminalOp::EraseInDisplay(0)
            &&& (action == 'K' && is_standard_op(p, action, rows, r)) ==> r == TerminalOp::EraseInLine(0)
            &&& (action == 'L' && is_standard_op(p, action, rows, r)) ==> r == TerminalOp::InsertLines(1)
            &&& (action == 'M' && is_standard_op(p, action, rows, r)) ==> r == TerminalOp::DeleteLines(1)
            &&& (action == 'r' && is_standard_op(p, action, rows, r)) ==> r == TerminalOp::SetScrollRegion(
                0,
                (if rows > 1 { rows - 1 } else { 0 }) as u16,
            )
        }),
{
}

/// `CSI row ; col H` goes to row `row` and column `col` counted from one (the first where
/// zero), and `CSI top ; bottom r` makes rows `top` to `bottom`, counted from one, the scroll
/// region.
pub proof fn law_csi_two_parameters(a: u16, b: u16, rows: u16, r: TerminalOp, action: char)
    ensures
        ({
            let p = seq![seq![a], seq![b]];
            let a1 = if a == 0 { 1u16 } else { a };
            let b1 = if b == 0 { 1u16 } else { b };
            &&& ((action == 'H' || action == 'f') && is_standard_op(p, action, rows, r)) ==> r == TerminalOp::SetCursorPosition(
                (a1 - 1) as u16,
                (b1 - 1) as u16,
            )
            &&& (action == 'r' && is_standard_op(p, action, rows, r) && b >= 1) ==> r == TerminalOp::SetScrollRegion(
                (a1 - 1) as u16,
                (b - 1) as u16,
            )
        }),
{
    let p = seq![seq![a], seq![b]];
    assert(p[0][0] == a);
    assert(p[1][0] == b);
}

/// `CSI ? modes h` sets and `CSI ? modes l` resets every private mode listed; any other CSI
/// sequence with `?` asks for nothing, and so does an ignored sequence.
pub proof fn law_csi_private_modes(k: u16, l: u16, action: char, rows: u16, r: TerminalOp, ignore: bool)
    ensures
        ({
            let p = seq![seq![k], seq![l]];
            &&& (!ignore && action == 'h' && is_csi_op(p, seq![0x3fu8], ignore, action, rows, r)) ==> (r matches TerminalOp::SetPrivateModes(v, e) && v@ == seq![k, l] && e)
            &&& (!ignore && action == 'l' && is_csi_op(p, seq![0x3fu8], ignore, action, rows, r)) ==> (r matches TerminalOp::SetPrivateModes(v, e) && v@ == seq![k, l] && !e)
            &&& (!ignore && action != 'h' && action != 'l' && is_csi_op(p, seq![0x3fu8], ignore, action, rows, r)) ==> r is Nothing
            &&& (ignore && is_csi_op(p, seq![0x3fu8], ignore, action, rows, r)) ==> r is Nothing
        }),
{
    let p = seq![seq![k], seq![l]];
    assert(seq![0x3fu8][0] == 0x3f);
    assert(p.drop_last() == seq![seq![k]]);
    assert(seq![seq![k]].drop_last() == Seq::<Seq<u16>>::empty());
    reveal_with_fuel(crate::parser::all_values, 3);
    assert(crate::parser::all_values(p) =~= seq![k, l]);
}

/// The control characters: 8 is backspace, 9 a tab, 10 to 12 a line feed and 13 a carriage
/// return; and the escape sequences `ESC 7` and `ESC 8` save and restore the cursor, `ESC D` is
/// a line feed, `ESC E` a new line, `ESC M` a reverse index and `ESC c` a reset.
pub proof fn law_control_and_escape_codes(byte: u8, r: TerminalOp)
    ensures
        (byte == 8 && is_execute_op(byte, r)) ==> r is Backspace,
        (byte == 9 && is_execute_op(byte, r)) ==> r is Tab,
        (10 <= byte <= 12 && is_execute_op(byte, r)) ==> r is Linefeed,
        (byte == 13 && is_execute_op(byte, r)) ==> r is CarriageReturn,
        (byte == 0x37 && is_esc_op(Seq::empty(), false, byte, r)) ==> r is SaveCursor,
        (byte == 0x38 && is_esc_op(Seq::empty(), false, byte, r)) ==> r is RestoreCursor,
        (byte == 0x44 && is_esc_op(Seq::empty(), false, byte, r)) ==> r is Linefeed,
        (byte == 0x45 && is_esc_op(Seq::empty(), false, byte, r)) ==> r is NextLine,
        (byte == 0x4d && is_esc_op(Seq::empty(), false, byte, r)) ==> r is ReverseIndex,
        (byte == 0x63 && is_esc_op(Seq::empty(), false, byte, r)) ==> r is Reset,
{
}

/// Which private mode switches what: 1 the cursor keys, 7 wraparound, 25 the cursor (hidden
/// when off), 1000, 1002 and 1003 the mouse tracking modes, 1004 focus reporting, 1006 the SGR
/// mouse encoding, 2004 bracketed paste, and 47, 1047 and 1049 the alternate screen; each
/// leaves the other modes, the screens and the size as they were (but for the screens the
/// alternate screen switches), and any other mode changes nothing.
pub proof fn law_private_modes(t0: TerminalState, t1: TerminalState, mode: u16, e: bool)
    requires
        t0.wf(),
        t0.set_private_mode_effect(&t1, mode, e),
    ensures
        ({
            let m = t0.modes_spec();
            let n = t1.modes_spec();
            let mouse = m.mouse;
            &&& t1.rows_spec() == t0.rows_spec()
            &&& t1.cols_spec() == t0.cols_spec()
            &&& mode == 1 ==> n == TerminalModes { application_cursor: e, ..m }
            &&& mode == 7 ==> n == TerminalModes { wraparound: e, ..m }
            &&& mode == 25 ==> n == TerminalModes { hide_cursor: !e, ..m }
            &&& mode == 1000 ==> n == TerminalModes { mouse: MouseModes { normal_tracking: e, ..mouse }, ..m }
            &&& mode == 1002 ==> n == TerminalModes { mouse: MouseModes { button_motion: e, ..mouse }, ..m }
            &&& mode == 1003 ==> n == TerminalModes { mouse: MouseModes { any_motion: e, ..mouse }, ..m }
            &&& mode == 1004 ==> n == TerminalModes { focus_reporting: e, ..m }
            &&& mode == 1006 ==> n == TerminalModes { mouse: MouseModes { sgr: e, ..mouse }, ..m }
            &&& mode == 2004 ==> n == TerminalModes { bracketed_paste: e, ..m }
            &&& (mode == 47 || mode == 1047 || mode == 1049) ==> n == TerminalModes { alternate_screen: e, ..m }
            &&& !(mode == 1 || mode == 7 || mode == 25 || mode == 1000 || mode == 1002 || mode == 1003 || mode == 1004
                || mode == 1006 || mode == 2004 || mode == 47 || mode == 1047 || mode == 1049) ==> t0.same_as(&t1)
        }),
{
}

/// The number that the ASCII decimal digits `s` spell, most significant first.
pub open spec fn digits_value(s: Seq<u8>) -> int
    decreases s.len(),
{
    if s.len() == 0 {
        0
    } else {
        digits_value(s.drop_last()) * 10 + (s.last() - 0x30)
    }
}

/// The decimal digits written for `n` are ASCII digits, without a leading zero unless `n` is
/// zero, and they spell `n`.
pub proof fn law_decimal_digits(n: nat)
    ensures
        decimal(n).len() >= 1,
        forall|i: int| 0 <= i < decimal(n).len() ==> 0x30 <= #[trigger] decimal(n)[i] <= 0x39,
        n > 0 ==> decimal(n)[0] != 0x30,
        digits_value(decimal(n)) == n,
    decreases n,
{
    if n >= 10 {
        law_decimal_digits(n / 10);
        let d = decimal(n);
        assert(d.drop_last() == decimal(n / 10));
        assert(d.last() == (n % 10 + 48) as u8);
        assert(d[0] == decimal(n / 10)[0]);
        assert(forall|i: int| 0 <= i < d.len() - 1 ==> d[i] == decimal(n / 10)[i]);
        assert(digits_value(d) == digits_value(decimal(n / 10)) * 10 + (n % 10));
        assert((n / 10) * 10 + n % 10 == n);
    } else {
        let d = seq![(n + 48) as u8];
        assert(decimal(n) == d);
        assert(d.drop_last() =~= Seq::<u8>::empty());
        assert(d.last() == (n + 48) as u8);
        assert(digits_value(d.drop_last()) == 0);
        assert(digits_value(d) == (n + 48) as u8 - 0x30);
    }
}

/// The cursor position report is `ESC [`, the row counted from one in decimal, `;`, the column
/// counted from one in decimal, and `R`; it answers a status report 6, `ESC [ 0 n` answers a
/// status report 5, and other status reports get no answer.
pub proof fn law_cursor_position_report(row: u16, col: u16)
    requires
        row < 0xffff,
        col < 0xffff,
    ensures
        position_report(row, col) == seq![0x1bu8, 0x5bu8] + decimal((row + 1) as nat) + seq![0x3bu8] + decimal((col + 1) as nat) + seq![0x52u8],
        report_reply(6, row, col) == Some(position_report(row, col)),
        report_reply(5, row, col) == Some(seq![0x1bu8, 0x5bu8, 0x30u8, 0x6eu8]),
        forall|mode: u16| mode != 5 && mode != 6 ==> #[trigger] report_reply(mode, row, col) is None,
{
}

/// The text of columns `s..e` of a row is the text of columns `s..m` followed by that of
/// `m..e`; one column gives the text of its cell: what the cell holds, a space for an empty
/// cell or a column past the row, and nothing for the right half of a wide character.
pub proof fn law_text_of_cells(v: Seq<CellView>, s: int, m: int, e: int, i: int)
    requires
        s <= m <= e,
    ensures
        text_view(v, s, e) == text_view(v, s, m) + text_view(v, m, e),
        text_view(v, i, i + 1) == cell_text(v, i),
        (0 <= i < v.len() && !v[i].3 && v[i].0.len() > 0) ==> cell_text(v, i) == v[i].0,
        (0 <= i < v.len() && !v[i].3 && v[i].0.len() == 0) ==> cell_text(v, i) == seq![' '],
        (0 <= i < v.len() && v[i].3) ==> cell_text(v, i) == Seq::<char>::empty(),
        !(0 <= i < v.len()) ==> cell_text(v, i) == seq![' '],
    decreases e - m,
{
    if e > m {
        law_text_of_cells(v, s, m, e - 1, i);
        assert(text_view(v, s, e) =~= text_view(v, s, m) + (text_view(v, m, e - 1) + cell_text(v, e - 1)));
    } else {
        assert(text_view(v, m, e) =~= Seq::<char>::empty());
        assert(text_view(v, s, e) =~= text_view(v, s, m) + text_view(v, m, e));
    }
    assert(text_view(v, i, i) =~= Seq::<char>::empty());
    assert(text_view(v, i, i + 1) =~= cell_text(v, i));
}

/// Viewport row `row` shows the row `row` below the top of the view, which lies
/// `display_offset` rows above the top of the screen: with the view at the bottom, screen row
/// `row`; rows past the bottom of the viewport show its bottom row.
pub proof fn law_viewport_rows(b: ScreenBuffer, row: int)
    requires
        b.wf(),
        0 <= row,
    ensures
        row < b.visible_rows ==> b.stable_of_visible(row) - b.stable_row_offset == b.live_start_spec() - b.display_offset + row,
        row >= b.visible_rows ==> b.stable_of_visible(row) == b.stable_of_visible(b.visible_rows - 1),
        b.display_offset == 0 && row < b.visible_rows ==> b.stable_of_visible(row) - b.stable_row_offset == b.abs_row(row),
{
}

/// Scrolling the viewport back by `rows` rows (at least one) goes that many rows further back,
/// up to the oldest row of the scrollback; scrolling it forward goes that many rows nearer the
/// bottom, down to the bottom.
pub proof fn law_viewport_scroll_offsets(b: ScreenBuffer, rows: u16)
    requires
        b.wf(),
    ensures
        ({
            let k = if rows > 1 { rows as int } else { 1 };
            let d = b.display_offset as int;
            &&& viewport_up_offset(b, rows) == if d + k <= b.history() { d + k } else { b.history() }
            &&& viewport_down_offset(b, rows) == if d >= k { d - k } else { 0 }
            &&& d <= viewport_up_offset(b, rows) <= b.history()
            &&& 0 <= viewport_down_offset(b, rows) <= d
        }),
{
}

/// An SGR sequence changes only the attributes in force, as its values say one after another;
/// one without values resets them.
pub proof fn law_sgr_op(t: TerminalState, n: TerminalState, v: Vec<u16>)
    requires
        t.wf(),
        op_effect(t, n, TerminalOp::Sgr(v)),
    ensures
        v@.len() == 0 ==> n.active_spec().attrs == default_attrs(),
        v@.len() > 0 ==> n.active_spec().attrs == sgr_from(t.active_spec().attrs, v@, 0),
        n.active_spec().lines() == t.active_spec().lines(),
        n.active_spec().cursor == t.active_spec().cursor,
        n.modes_spec() == t.modes_spec(),
{
    lemma_sgr_single(t.active_spec().attrs, seq![0u16]);
}

/// `CSI 8 ; rows ; cols t` asks for a window of that many rows and columns (at least one each),
/// the current size standing in for a missing value; any other window operation asks for
/// nothing. `OSC 0 ; title` and `OSC 2 ; title` set the title; other commands set none.
pub proof fn law_window_and_title_requests(x: u16, r: u16, c: u16, rows: u16, cols: u16, rest: Seq<u16>, code: u8, title: Seq<u8>)
    ensures
        window_request(seq![8u16, r, c], rows, cols) == Some((if r > 1 { r } else { 1u16 }, if c > 1 { c } else { 1u16 })),
        window_request(seq![8u16, r], rows, cols) == Some((if r > 1 { r } else { 1u16 }, if cols > 1 { cols } else { 1u16 })),
        window_request(seq![8u16], rows, cols) == Some((if rows > 1 { rows } else { 1u16 }, if cols > 1 { cols } else { 1u16 })),
        x != 8 ==> window_request(seq![x] + rest, rows, cols) is None,
        window_request(Seq::empty(), rows, cols) is None,
        (code == 0x30 || code == 0x32) ==> osc_title(seq![seq![code], title]) == Some(title),
        !(code == 0x30 || code == 0x32) ==> osc_title(seq![seq![code], title]) is None,
{
    assert((seq![x] + rest)[0] == x);
    assert(seq![seq![code], title][0] == seq![code]);
    assert(seq![seq![code], title][1] == title);
    assert(seq![code][0] == code);
}

/// Turning the rows of a ring of `n` rows by `k` and then by `n - k` gives the same ring.
pub proof fn law_rotation_round_trip<T>(s: Seq<T>, k: int)
    requires
        0 <= k < s.len(),
    ensures
        rotate_seq(rotate_seq(s, k), s.len() - k) == s,
{
    let n = s.len() as int;
    let r = rotate_seq(s, k);
    assert forall|i: int| 0 <= i < n implies #[trigger] rotate_seq(r, n - k)[i] == s[i] by {
        let j = (i + n - k) % n;
        vstd::arithmetic::div_mod::lemma_mod_bound(i + n - k, n);
        vstd::arithmetic::div_mod::lemma_add_mod_noop(i + n - k, k, n);
        vstd::arithmetic::div_mod::lemma_mod_add_multiples_vanish(i, n);
        vstd::arithmetic::div_mod::lemma_small_mod(i as nat, n as nat);
        vstd::arithmetic::div_mod::lemma_small_mod(k as nat, n as nat);
        vstd::arithmetic::div_mod::lemma_small_mod(j as nat, n as nat);
        assert((j + k) % n == i);
    }
    assert(rotate_seq(r, n - k) =~= s);
}

/// A cell comes back from its linear index on a viewport `cols` columns wide.
pub proof fn law_linear_index_round_trip(row: u16, col: u16, cols: u16)
    requires
        col < cols,
    ensures
        linear_cell(row * cols + col, cols as int) == (CellPos { row, col }),
{
    let i = row * cols + col;
    vstd::arithmetic::div_mod::lemma_fundamental_div_mod_converse(i, cols as int, row as int, col as int);
    vstd::arithmetic::div_mod::lemma_small_mod(row as nat, 0x10000);
    vstd::arithmetic::div_mod::lemma_small_mod(col as nat, 0x10000);
}

/// The range of a selection starts no later than it ends, whichever end was set first, and
/// it covers both ends.
pub proof fn law_selection_range_ordered(anchor: StableCellPos, focus: StableCellPos)
    ensures
        pos_le(ordered(anchor, focus).start, ordered(anchor, focus).end),
        ordered(anchor, focus) == ordered(focus, anchor) || anchor == focus,
        (ordered(anchor, focus).start == anchor && ordered(anchor, focus).end == focus)
            || (ordered(anchor, focus).start == focus && ordered(anchor, focus).end == anchor),
{
}

/// Scrolling the viewport back by some rows and then forward by as many gives the viewport
/// back, when the scrollback reaches that far.
pub proof fn law_viewport_scroll_round_trip(t0: TerminalState, t1: TerminalState, t2: TerminalState, rows: u16)
    requires
        t0.wf(),
        t0.active_spec().display_offset + (if rows > 1 { rows as int } else { 1 }) <= t0.active_spec().history(),
        t0.changed_active(
            &t1,
            ScreenBuffer { display_offset: viewport_up_offset(t0.active_spec(), rows) as usize, ..t0.active_spec() },
            t0.seqno_spec(),
        ),
        t1.changed_active(
            &t2,
            ScreenBuffer { display_offset: viewport_down_offset(t1.active_spec(), rows) as usize, ..t1.active_spec() },
            t1.seqno_spec(),
        ),
    ensures
        t2.active_spec() == t0.active_spec(),
        t2.same_as(&t0),
{
}

/// With the default tab stops, every eighth column, a tab moves from column `col` to the next
/// multiple of eight, or to the last column where that is off the screen.
pub proof fn law_default_tab_moves_to_next_eighth_column(stops: Seq<bool>, cols: int, col: int)
    requires
        stops == Seq::new(cols as nat, |i: int| default_tab_stop(i)),
        0 <= col < cols,
    ensures
        tab_target(stops, col, cols - 1) == if (col / 8 + 1) * 8 < cols { (col / 8 + 1) * 8 } else { cols - 1 },
{
    let next = (col / 8 + 1) * 8;
    lemma_no_stop_before(stops, cols, col + 1, next);
}

/// From column `i` on, the first default tab stop is `next`, the next multiple of eight, if it
/// is on the screen.
proof fn lemma_no_stop_before(stops: Seq<bool>, cols: int, i: int, next: int)
    requires
        stops == Seq::new(cols as nat, |k: int| default_tab_stop(k)),
        cols > 0,
        0 < i <= next,
        next % 8 == 0,
        next - i < 8,
    ensures
        stop_from(stops, i) == if next < cols { Some(next) } else { None::<int> },
    decreases next - i,
{
    assert(stops.len() == cols);
    if i >= cols {
    } else if i == next {
        assert(stops[i]);
    } else {
        assert(i % 8 != 0);
        assert(!stops[i]);
        lemma_no_stop_before(stops, cols, i + 1, next);
    }
}

/// Wrapping a logical line at any width only cuts it: joined in order, the pieces give the
/// line back cell for cell, none is empty, and none is longer than the width (one cell where
/// the width is less than one).
pub proof fn law_wrap_keeps_every_cell(v: Seq<CellView>, width: int)
    ensures
        v.len() > 0 ==> wrap_view(v, width).flatten() == v,
        v.len() == 0 ==> wrap_view(v, width) == seq![Seq::<CellView>::empty()],
        forall|k: int| 0 <= k < wrap_view(v, width).len() && v.len() > 0 ==> {
            &&& (#[trigger] wrap_view(v, width)[k]).len() >= 1
            &&& wrap_view(v, width)[k].len() <= if width > 1 { width } else { 1 }
        },
{
    if v.len() > 0 {
        lemma_segments_join(v, 0, width);
        assert(v.subrange(0, v.len() as int) =~= v);
    }
}

proof fn lemma_segments_join(v: Seq<CellView>, start: int, width: int)
    requires
        0 <= start <= v.len(),
    ensures
        segments_from(v, start, width).flatten() == v.subrange(start, v.len() as int),
        forall|k: int| 0 <= k < segments_from(v, start, width).len() ==> {
            &&& (#[trigger] segments_from(v, start, width)[k]).len() >= 1
            &&& segments_from(v, start, width)[k].len() <= if width > 1 { width } else { 1 }
        },
    decreases v.len() - start,
{
    if start < v.len() {
        let end = reflow_break_spec(v, start, width);
        assert(start < end <= v.len());
        lemma_segments_join(v, end, width);
        let segs = segments_from(v, start, width);
        let rest = segments_from(v, end, width);
        assert(segs == seq![v.subrange(start, end)] + rest);
        assert(segs.first() == v.subrange(start, end));
        assert(segs.drop_first() =~= rest);
        assert(segs.flatten() == v.subrange(start, end) + rest.flatten());
        assert(v.subrange(start, end) + v.subrange(end, v.len() as int) =~= v.subrange(start, v.len() as int));
        assert forall|k: int| 0 <= k < segs.len() implies {
            &&& (#[trigger] segs[k]).len() >= 1
            &&& segs[k].len() <= if width > 1 { width } else { 1 }
        } by {
            if k > 0 {
                assert(segs[k] == rest[k - 1]);
            }
        }
    } else {
        assert(v.subrange(start, v.len() as int) =~= Seq::<CellView>::empty());
    }
}

/// Turning a storage by `count` rows and then back by `-count` gives every row back where it
/// was, the spare rows too; `-count` is always a count `rotate` takes, since a ring holds at
/// most `isize::MAX` rows.
pub proof fn law_storage_rotate_round_trip<T>(s0: RowStorage<T>, s1: RowStorage<T>, s2: RowStorage<T>, count: int)
    requires
        s0.wf(),
        s0.ring().len() > 0,
        -(s0.ring().len() as int) <= count <= s0.ring().len(),
        s0.rotated(&s1, count),
        s1.rotated(&s2, -count),
    ensures
        -(s1.ring().len() as int) <= -count <= s1.ring().len(),
        isize::MIN <= -count <= isize::MAX,
        s2.ring() == s0.ring(),
        s2.rows() == s0.rows(),
        s2.len_spec() == s0.len_spec(),
        s2.visible_lines_spec() == s0.visible_lines_spec(),
{
    s0.lemma_wf();
    let r = s0.ring();
    let n = r.len() as int;
    let a = count + n;
    let b = -count + n;
    assert forall|i: int| 0 <= i < n implies #[trigger] s2.ring()[i] == r[i] by {
        let j = (i + b) % n;
        vstd::arithmetic::div_mod::lemma_mod_bound(i + b, n);
        assert(s2.ring()[i] == s1.ring()[j]);
        assert(s1.ring()[j] == r[(j + a) % n]);
        vstd::arithmetic::div_mod::lemma_add_mod_noop_right(a, i + b, n);
        assert((j + a) % n == (a + (i + b)) % n);
        assert(a + (i + b) == n * 2 + i);
        vstd::arithmetic::div_mod::lemma_mod_multiples_vanish(2, i, n);
        vstd::arithmetic::div_mod::lemma_small_mod(i as nat, n as nat);
    }
    assert(s2.ring() =~= r);
}

/// Turning a storage forward by `count` rows with `rotate` turns its ring exactly as
/// `rotate_down` by `count` does.
pub proof fn law_rotate_forward_is_rotate_down<T>(s0: RowStorage<T>, s1: RowStorage<T>, count: int)
    requires
        s0.wf(),
        s0.ring().len() > 0,
        0 <= count <= s0.ring().len(),
        s0.rotated(&s1, count),
    ensures
        s1.ring() == rotate_seq(s0.ring(), count),
        s1.len_spec() == s0.len_spec(),
        s1.visible_lines_spec() == s0.visible_lines_spec(),
{
    let r = s0.ring();
    let n = r.len() as int;
    assert forall|k: int| 0 <= k < n implies #[trigger] s1.ring()[k] == rotate_seq(r, count)[k] by {
        vstd::arithmetic::div_mod::lemma_mod_add_multiples_vanish(k + count, n);
        assert(k + (count + n) == n + (k + count));
    }
    assert(s1.ring() =~= rotate_seq(r, count));
}

/// Exchanging two rows, each given as a line counted from the top visible line (history rows
/// above it), puts each where the other was and leaves every other row, and the number of
/// rows, as they were; exchanging the same two rows twice gives every row back where it was,
/// the spare rows too.
pub proof fn law_storage_swap_twice<T>(s0: RowStorage<T>, s1: RowStorage<T>, s2: RowStorage<T>, a: Line, b: Line)
    requires
        s0.wf(),
        s0.visible_lines_spec() <= i32::MAX,
        0 <= s0.visible_lines_spec() - 1 - a.0 < s0.len_spec(),
        0 <= s0.visible_lines_spec() - 1 - b.0 < s0.len_spec(),
        s0.swapped(&s1, a, b),
        s1.swapped(&s2, a, b),
    ensures
        ({
            let ia = s0.len_spec() - s0.visible_lines_spec() + a.0;
            let ib = s0.len_spec() - s0.visible_lines_spec() + b.0;
            &&& s1.len_spec() == s0.len_spec()
            &&& s1.rows()[ia] == s0.rows()[ib]
            &&& s1.rows()[ib] == s0.rows()[ia]
            &&& forall|k: int| 0 <= k < s0.len_spec() && k != ia && k != ib ==> #[trigger] s1.rows()[k] == s0.rows()[k]
        }),
        s1.ring()[s0.visible_lines_spec() - 1 - a.0] == s0.ring()[s0.visible_lines_spec() - 1 - b.0],
        s1.ring()[s0.visible_lines_spec() - 1 - b.0] == s0.ring()[s0.visible_lines_spec() - 1 - a.0],
        forall|k: int| 0 <= k < s0.ring().len() && k != s0.visible_lines_spec() - 1 - a.0
            && k != s0.visible_lines_spec() - 1 - b.0 ==> #[trigger] s1.ring()[k] == s0.ring()[k],
        s2.ring() == s0.ring(),
        s2.rows() == s0.rows(),
        s2.len_spec() == s0.len_spec(),
{
    s0.lemma_wf();
    assert(s2.ring() =~= s0.ring());
    assert(s2.rows() =~= s0.rows());
}

/// Taking all rows out of a storage and putting them back gives the same rows in the same
/// order; the rows taken out always fit back in.
pub proof fn law_storage_take_and_refill<T>(s0: RowStorage<T>, s1: RowStorage<T>, s2: RowStorage<T>)
    requires
        s0.wf(),
        s1.refilled(&s2, s0.rows()),
    ensures
        s0.rows().len() <= isize::MAX,
        s2.rows() == s0.rows(),
        s2.len_spec() == s0.len_spec(),
        forall|i: int| 0 <= i < s0.len_spec() ==> #[trigger] s2.rows()[i] == s0.rows()[i],
{
    s0.lemma_wf();
}

/// Clamping a line to the screen or the grid keeps it between the top (line 0 for the screen)
/// and the bottom line, leaves a line already there as it is, and clamping again changes
/// nothing.
pub proof fn law_line_clamp<D: Dimensions>(d: &D, l: int, b: Boundary)
    requires
        b != Boundary::Wrap,
    ensures
        ({
            let bottom = d.spec_screen_lines() - 1;
            let top = if b == Boundary::Cursor { 0 } else { -history_of(d.spec_total_lines() as int, d.spec_screen_lines() as int) };
            let hi = if bottom < l { bottom } else { l };
            &&& clamp_line(d, l, b) == if top > hi { top } else { hi }
            &&& top <= l <= bottom ==> clamp_line(d, l, b) == l
            &&& clamp_line(d, clamp_line(d, l, b), b) == clamp_line(d, l, b)
        }),
{
}

} // verus!
