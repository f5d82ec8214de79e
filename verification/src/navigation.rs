//! Moving the keyboard selection focus over the cells of the viewport, counted row by row from
//! the top left.

use crate::config::{is_whitespace, white_space};
use crate::input::SelectionMove;
use crate::selection::{CellPos, SelectionState, StableCellPos};
use crate::terminal::screen::ScreenBuffer;
use crate::terminal::state::{viewport_down_offset, viewport_up_offset, TerminalState};
use vstd::prelude::*;
use vstd::string::StrSliceExecFns;

verus! {

/// What kind of text a cell holds, for moving by words.
#[derive(Clone, Copy, Debug, PartialEq, Eq, Structural)]
pub enum TextClass {
    Space,
    Word,
    Punctuation,
}

/// Whether `char::is_alphanumeric` holds of `c`: whether it is a Unicode letter or number.
pub uninterp spec fn alphanumeric(c: char) -> bool;

/// Whether `c` is alphanumeric (`char::is_alphanumeric`); ASCII letters and digits are, the ASCII
/// space and punctuation are not.
#[verifier::external_body]
fn is_alphanumeric(c: char) -> (r: bool)
    ensures
        r == alphanumeric(c),
        ('a' <= c <= 'z' || 'A' <= c <= 'Z' || '0' <= c <= '9') ==> r,
        (' ' <= c <= '/' || ':' <= c <= '@' || '[' <= c <= '`' || '{' <= c <= '~') ==> !r,
{
    c.is_alphanumeric()
}

/// The class of `c`: whitespace, a word character (alphanumeric or `_`), or punctuation.
pub open spec fn class_of(c: char) -> TextClass {
    if white_space(c) {
        TextClass::Space
    } else if alphanumeric(c) || c == '_' {
        TextClass::Word
    } else {
        TextClass::Punctuation
    }
}

/// The cell with linear index `index` on a viewport `cols` columns wide.
pub open spec fn linear_cell(index: int, cols: int) -> CellPos {
    CellPos { row: ((index / cols) % 0x10000) as u16, col: ((index % cols) % 0x10000) as u16 }
}

/// The cell with linear index `index` on a viewport `cols` columns wide, row and column cut to
/// 16 bits.
pub fn cell_pos_from_linear(index: usize, cols: u16) -> (r: CellPos)
    requires
        cols > 0,
    ensures
        r == linear_cell(index as int, cols as int),
{
    let cols = cols as usize;
    CellPos { row: ((index / cols) % 0x10000) as u16, col: ((index % cols) % 0x10000) as u16 }
}

/// The cell with linear index `index` on the viewport of `terminal`, by stable row.
pub fn stable_cell_pos_from_linear(terminal: &TerminalState, index: usize, cols: u16) -> (r: StableCellPos)
    requires
        terminal.wf(),
        cols > 0,
    ensures
        r == (StableCellPos {
            row: terminal.active_spec().stable_of_visible(linear_cell(index as int, cols as int).row as int) as usize,
            col: linear_cell(index as int, cols as int).col,
        }),
{
    let cell = cell_pos_from_linear(index, cols);
    StableCellPos { row: terminal.visible_row_to_stable_row(cell.row), col: cell.col }
}

/// The character that stands for the cell with linear index `index`: the first character of
/// its text, or a space for an empty cell, the right half of a wide character or a cell past
/// the rows held.
pub open spec fn char_at(t: TerminalState, index: int) -> char {
    let cols = t.cols_spec() as int;
    let pos = linear_cell(index, cols);
    let b = t.active_spec();
    let i = b.stable_of_visible(pos.row as int) - b.stable_row_offset;
    if 0 <= i < b.len() && pos.col < b.lines()[i].0.len() {
        let cell = b.lines()[i].0[pos.col as int];
        if !cell.3 && cell.0.len() > 0 { cell.0[0] } else { ' ' }
    } else {
        ' '
    }
}

/// The class of the cell with linear index `index`.
pub open spec fn class_at(t: TerminalState, index: int) -> TextClass {
    class_of(char_at(t, index))
}

/// The class of the cell with linear index `index`.
pub fn text_class_at(terminal: &TerminalState, index: usize) -> (r: TextClass)
    requires
        terminal.wf(),
    ensures
        r == class_at(*terminal, index as int),
{
    let (_, cols) = terminal.size();
    let cols_n = cols as usize;
    let row = ((index / cols_n) % 0x10000) as u16;
    let col = ((index % cols_n) % 0x10000) as u16;
    let ch = match terminal.cell(row, col) {
        Some(cell) => {
            if cell.is_wide_continuation() {
                ' '
            } else {
                let text = cell.contents();
                if text.unicode_len() > 0 {
                    text.get_char(0)
                } else {
                    ' '
                }
            }
        },
        None => ' ',
    };
    if is_whitespace(ch) {
        TextClass::Space
    } else if is_alphanumeric(ch) || ch == '_' {
        TextClass::Word
    } else {
        TextClass::Punctuation
    }
}

/// Where moving left from `f` over cells of class `class` stops.
pub open spec fn back_over(t: TerminalState, f: int, class: TextClass) -> int
    decreases f,
{
    if f > 0 && class_at(t, f - 1) == class {
        back_over(t, f - 1, class)
    } else {
        f
    }
}

/// Where moving right from `f` over cells of class `class` stops, at `total` at the latest.
pub open spec fn forward_over(t: TerminalState, f: int, total: int, class: TextClass) -> int
    decreases total - f,
{
    if f < total && class_at(t, f) == class {
        forward_over(t, f + 1, total, class)
    } else {
        f
    }
}

/// The start of the word before `focus`: past any spaces, then over the cells of the class of
/// the cell before.
pub open spec fn word_start_before(t: TerminalState, focus: int) -> int {
    let g = back_over(t, focus, TextClass::Space);
    if g == 0 { 0 } else { back_over(t, g, class_at(t, g - 1)) }
}

/// The end of the word from `focus` on: past any spaces, then over the cells of the class of
/// the cell reached, at the end of the viewport at the latest.
pub open spec fn word_end_after(t: TerminalState, focus: int) -> int {
    let total = t.rows_spec() * t.cols_spec();
    let g = forward_over(t, focus, total, TextClass::Space);
    if g >= total { total } else { forward_over(t, g, total, class_at(t, g)) }
}

proof fn lemma_back_over(t: TerminalState, f: int, class: TextClass)
    requires
        f >= 0,
    ensures
        0 <= back_over(t, f, class) <= f,
    decreases f,
{
    if f > 0 && class_at(t, f - 1) == class {
        lemma_back_over(t, f - 1, class);
    }
}

/// Moving left from `f` over cells of `class` stops at or before `f`, after only cells of that
/// class, at the first cell or after a cell of another class.
pub proof fn lemma_back_over_stops(t: TerminalState, f: int, class: TextClass)
    requires
        f >= 0,
    ensures
        0 <= back_over(t, f, class) <= f,
        forall|i: int| back_over(t, f, class) <= i < f ==> #[trigger] class_at(t, i) == class,
        back_over(t, f, class) > 0 ==> class_at(t, back_over(t, f, class) - 1) != class,
    decreases f,
{
    if f > 0 && class_at(t, f - 1) == class {
        lemma_back_over_stops(t, f - 1, class);
    }
}

/// Moving right from `f` over cells of `class` stops at or after `f` and at `total` at the
/// latest, after only cells of that class, at `total` or at a cell of another class.
pub proof fn lemma_forward_over_stops(t: TerminalState, f: int, total: int, class: TextClass)
    requires
        f <= total,
    ensures
        f <= forward_over(t, f, total, class) <= total,
        forall|i: int| f <= i < forward_over(t, f, total, class) ==> #[trigger] class_at(t, i) == class,
        forward_over(t, f, total, class) < total ==> class_at(t, forward_over(t, f, total, class)) != class,
    decreases total - f,
{
    if f < total && class_at(t, f) == class {
        lemma_forward_over_stops(t, f + 1, total, class);
    }
}

/// Moves left from `focus` to the start of the word before it.
pub fn previous_word_boundary(terminal: &TerminalState, focus: usize) -> (r: usize)
    requires
        terminal.wf(),
    ensures
        r == word_start_before(*terminal, focus as int),
{
    let mut f = focus;
    while f > 0 && matches!(text_class_at(terminal, f - 1), TextClass::Space)
        invariant
            terminal.wf(),
            f <= focus,
            back_over(*terminal, f as int, TextClass::Space) == back_over(*terminal, focus as int, TextClass::Space),
        decreases f,
    {
        f = f - 1;
    }
    if f == 0 {
        return 0;
    }
    let class = text_class_at(terminal, f - 1);
    let ghost g = f;
    while f > 0 && text_class_at(terminal, f - 1) == class
        invariant
            terminal.wf(),
            f <= g,
            class == class_at(*terminal, g - 1),
            back_over(*terminal, f as int, class) == back_over(*terminal, g as int, class),
        decreases f,
    {
        f = f - 1;
    }
    f
}

/// Moves right from `focus` to the end of the word from it on.
pub fn next_word_boundary(terminal: &TerminalState, focus: usize) -> (r: usize)
    requires
        terminal.wf(),
    ensures
        r == word_end_after(*terminal, focus as int),
{
    let (rows, cols) = terminal.size();
    let total = cell_count(rows, cols);
    let mut f = focus;
    while f < total && matches!(text_class_at(terminal, f), TextClass::Space)
        invariant
            terminal.wf(),
            total == terminal.rows_spec() * terminal.cols_spec(),
            focus <= f,
            forward_over(*terminal, f as int, total as int, TextClass::Space) == forward_over(
                *terminal,
                focus as int,
                total as int,
                TextClass::Space,
            ),
        decreases total - f,
    {
        f = f + 1;
    }
    if f >= total {
        return total;
    }
    let class = text_class_at(terminal, f);
    let ghost g = f;
    while f < total && text_class_at(terminal, f) == class
        invariant
            terminal.wf(),
            total == terminal.rows_spec() * terminal.cols_spec(),
            g <= f,
            class == class_at(*terminal, g as int),
            forward_over(*terminal, f as int, total as int, class) == forward_over(*terminal, g as int, total as int, class),
        decreases total - f,
    {
        f = f + 1;
    }
    f
}

/// The number of cells of a viewport of `rows` by `cols`.
fn cell_count(rows: u16, cols: u16) -> (r: usize)
    ensures
        r == rows * cols,
{
    proof {
        assert(rows * cols <= 0xffff * 0xffff) by (nonlinear_arith)
            requires
                rows <= 0xffff,
                cols <= 0xffff,
        ;
    }
    rows as usize * cols as usize
}

/// Where `move_kind` takes the selection focus from linear index `focus` on a viewport of
/// `rows` by `cols` cells: by a cell or a row, to either end of the row, or by a word, staying
/// within the cells and one past the last.
pub open spec fn moved_focus(t: TerminalState, focus: int, move_kind: SelectionMove) -> int {
    let cols = t.cols_spec() as int;
    let total = t.rows_spec() * cols;
    match move_kind {
        SelectionMove::Left => if focus >= 1 { focus - 1 } else { 0 },
        SelectionMove::Right => if focus + 1 < total { focus + 1 } else { total },
        SelectionMove::Up => if focus >= cols { focus - cols } else { 0 },
        SelectionMove::Down => if focus + cols < total { focus + cols } else { total },
        SelectionMove::Home => (focus / cols) * cols,
        SelectionMove::End => if (focus / cols + 1) * cols < total { (focus / cols + 1) * cols } else { total },
        SelectionMove::WordLeft => word_start_before(t, focus),
        SelectionMove::WordRight => word_end_after(t, focus),
    }
}

/// Where `move_kind` takes the selection focus from linear index `focus`, as `moved_focus`
/// says.
pub fn move_selection_focus(terminal: &TerminalState, focus: usize, move_kind: SelectionMove) -> (r: usize)
    requires
        terminal.wf(),
        move_kind == SelectionMove::End && terminal.cols_spec() == 1 ==> focus < usize::MAX,
    ensures
        r == moved_focus(*terminal, focus as int, move_kind),
{
    let (rows, cols16) = terminal.size();
    let total = cell_count(rows, cols16);
    let cols = cols16 as usize;
    match move_kind {
        SelectionMove::Left => focus.saturating_sub(1),
        SelectionMove::Right => {
            let next = focus.saturating_add(1);
            if next < total {
                next
            } else {
                total
            }
        },
        SelectionMove::Up => focus.saturating_sub(cols),
        SelectionMove::Down => {
            let next = focus.saturating_add(cols);
            if next < total {
                next
            } else {
                total
            }
        },
        SelectionMove::Home => {
            proof {
                assert((focus / cols) * cols <= focus) by (nonlinear_arith)
                    requires
                        cols > 0,
                ;
            }
            (focus / cols) * cols
        },
        SelectionMove::End => {
            proof {
                if cols >= 2 {
                    assert(focus / cols < usize::MAX) by (nonlinear_arith)
                        requires
                            cols >= 2,
                            focus <= usize::MAX,
                    ;
                }
            }
            let q = focus / cols + 1;
            let end = if q > usize::MAX / cols {
                usize::MAX
            } else {
                proof {
                    assert(q * cols <= usize::MAX) by (nonlinear_arith)
                        requires
                            q <= usize::MAX / cols,
                            cols > 0,
                    ;
                }
                q * cols
            };
            proof {
                if q > usize::MAX / cols {
                    assert(q * cols > usize::MAX) by (nonlinear_arith)
                        requires
                            q > usize::MAX / cols,
                            cols > 0,
                    ;
                }
            }
            if end < total {
                end
            } else {
                total
            }
        },
        SelectionMove::WordLeft => previous_word_boundary(terminal, focus),
        SelectionMove::WordRight => next_word_boundary(terminal, focus),
    }
}

/// The linear index of the cursor cell, at most the number of cells.
pub open spec fn caret(t: TerminalState) -> int {
    let row = t.active_spec().cursor.row as int;
    let col = t.active_spec().cursor.col as int;
    let total = t.rows_spec() * t.cols_spec();
    if row * t.cols_spec() + col < total { row * t.cols_spec() + col } else { total }
}

/// The linear index of the cursor cell, as `caret` says.
pub fn caret_index(terminal: &TerminalState) -> (r: usize)
    requires
        terminal.wf(),
    ensures
        r == caret(*terminal),
{
    let (rows, cols) = terminal.size();
    let (row, col) = terminal.cursor_position();
    let total = cell_count(rows, cols);
    proof {
        assert(row * cols + col <= 0xffff * 0xffff + 0xffff) by (nonlinear_arith)
            requires
                row <= 0xffff,
                cols <= 0xffff,
                col <= 0xffff,
        ;
    }
    let index = row as usize * cols as usize + col as usize;
    if index < total {
        index
    } else {
        total
    }
}

/// A selection made from the keyboard: where it started and where its moving end is, as
/// linear cell indexes; none before the first move.
#[derive(Clone, Copy, Debug, Default, PartialEq, Eq, Structural)]
pub struct KeyboardSelection {
    pub anchor: Option<usize>,
    pub focus: Option<usize>,
}

impl KeyboardSelection {
    /// Forgets the keyboard selection.
    pub fn reset(&mut self)
        ensures
            final(self).anchor is None,
            final(self).focus is None,
    {
        self.anchor = None;
        self.focus = None;
    }

    /// Moves the end of the keyboard selection by `move_kind`, starting at the cursor where no
    /// selection was made yet, and selects the cells from the start up to (not including) the
    /// moved end, whichever comes first, in `selection`; an empty range clears `selection`.
    /// Returns the indexes of the start and the moved end.
    pub fn apply(&mut self, terminal: &TerminalState, selection: &mut SelectionState, move_kind: SelectionMove) -> (r: (usize, usize))
        requires
            terminal.wf(),
        ensures
            ({
                let total = terminal.rows_spec() * terminal.cols_spec();
                let anchor = match old(self).anchor {
                    Some(a) => a as int,
                    None => caret(*terminal),
                };
                let focus = match old(self).focus {
                    Some(f) => if f < total { f as int } else { total },
                    None => caret(*terminal),
                };
                let next = moved_focus(*terminal, focus, move_kind);
                let cols = terminal.cols_spec() as int;
                let (start, end) = if anchor < next { (anchor, next) } else { (next, anchor) };
                let at = |i: int| StableCellPos {
                    row: terminal.active_spec().stable_of_visible(linear_cell(i, cols).row as int) as usize,
                    col: linear_cell(i, cols).col,
                };
                &&& r == (anchor as usize, next as usize)
                &&& final(self).anchor == Some(anchor as usize)
                &&& final(self).focus == Some(next as usize)
                &&& if anchor == next {
                    final(selection).anchor_spec() is None && final(selection).focus_spec() is None
                } else {
                    &&& final(selection).anchor_spec() == Some(at(start))
                    &&& final(selection).focus_spec() == Some(at(if end >= 1 { end - 1 } else { 0 }))
                }
                &&& !final(selection).selecting_spec()
            }),
    {
        let (rows, cols) = terminal.size();
        let total = cell_count(rows, cols);
        let caret = caret_index(terminal);
        let anchor = match self.anchor {
            Some(a) => a,
            None => caret,
        };
        let focus = match self.focus {
            Some(f) => if f < total {
                f
            } else {
                total
            },
            None => caret,
        };
        proof {
            assert(rows * cols <= 0xffff * 0xffff) by (nonlinear_arith)
                requires
                    rows <= 0xffff,
                    cols <= 0xffff,
            ;
        }
        let next = move_selection_focus(terminal, focus, move_kind);
        self.anchor = Some(anchor);
        self.focus = Some(next);
        if anchor == next {
            selection.clear();
        } else {
            let (start, end) = if anchor < next {
                (anchor, next)
            } else {
                (next, anchor)
            };
            let first = stable_cell_pos_from_linear(terminal, start, cols);
            let last = stable_cell_pos_from_linear(terminal, end.saturating_sub(1), cols);
            selection.set_range(first, last);
        }
        (anchor, next)
    }
}

/// Scrolls the viewport of `terminal` back by `lines` rows where that is positive, forward by
/// as many where it is negative (at most `u16::MAX` rows either way), as far as there is
/// scrollback; returns whether the viewport moved.
pub fn scroll_viewport_lines(terminal: &mut TerminalState, lines: i32) -> (r: bool)
    requires
        old(terminal).wf(),
    ensures
        final(terminal).wf(),
        ({
            let b = old(terminal).active_spec();
            let next = if lines > 0 {
                viewport_up_offset(b, if lines < 0xffff { lines as u16 } else { 0xffffu16 })
            } else if lines < 0 {
                viewport_down_offset(b, if -lines < 0xffff { (-lines) as u16 } else { 0xffffu16 })
            } else {
                b.display_offset as int
            };
            &&& r == (next != b.display_offset)
            &&& old(terminal).changed_active(final(terminal), ScreenBuffer { display_offset: next as usize, ..b }, old(terminal).seqno_spec())
        }),
{
    if lines > 0 {
        let n: u16 = if lines < 0xffff {
            lines as u16
        } else {
            0xffff
        };
        terminal.scroll_viewport_up(n)
    } else if lines < 0 {
        let m: i64 = -(lines as i64);
        let n: u16 = if m < 0xffff {
            m as u16
        } else {
            0xffff
        };
        terminal.scroll_viewport_down(n)
    } else {
        proof {
            assert(ScreenBuffer { display_offset: old(terminal).active_spec().display_offset, ..old(terminal).active_spec() }
                == old(terminal).active_spec());
        }
        false
    }
}

} // verus!
