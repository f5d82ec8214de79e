//! The terminal: a primary screen with scrollback and an alternate screen without, the modes
//! escape sequences switch, and the tab stops.

use super::cells::{default_attrs, CellAttributes, TerminalCell, TerminalColor};
use super::line::text_view;
use super::resize::{lines_bounded, occ_sum, refit_line, rewrap_from, rewrap_room, trimmed_lines, within_width};
use super::edit::next_row;
use super::screen::{cleared_line, fresh, lemma_reconciled_tail, origin, reconciled, sat_add_u64, BufferRow, GridCursor, SavedCursor, ScreenBuffer, ROW_LIMIT};
use super::width::{char_width, unicode_width_of};
use super::StableRowIndex;
use vstd::prelude::*;

verus! {

/// Which mouse events the application asked to be told about.
#[derive(Clone, Copy, Debug, Default, PartialEq, Eq, Structural)]
pub enum MouseTrackingMode {
    #[default]
    Disabled,
    Normal,
    ButtonMotion,
    AnyMotion,
}

/// The mouse reporting modes, each switched on its own.
#[derive(Clone, Copy, Debug, PartialEq, Eq, Structural)]
pub struct MouseModes {
    pub normal_tracking: bool,
    pub button_motion: bool,
    pub any_motion: bool,
    pub sgr: bool,
}

/// The tracking mode in force: the most detailed one switched on.
pub open spec fn tracking_of(m: MouseModes) -> MouseTrackingMode {
    if m.any_motion {
        MouseTrackingMode::AnyMotion
    } else if m.button_motion {
        MouseTrackingMode::ButtonMotion
    } else if m.normal_tracking {
        MouseTrackingMode::Normal
    } else {
        MouseTrackingMode::Disabled
    }
}

impl MouseModes {
    /// The tracking mode in force: the most detailed one switched on.
    pub fn tracking_mode(self) -> (r: MouseTrackingMode)
        ensures
            r == tracking_of(self),
    {
        if self.any_motion {
            MouseTrackingMode::AnyMotion
        } else if self.button_motion {
            MouseTrackingMode::ButtonMotion
        } else if self.normal_tracking {
            MouseTrackingMode::Normal
        } else {
            MouseTrackingMode::Disabled
        }
    }
}

/// The modes of the terminal.
#[derive(Clone, Copy, Debug, PartialEq, Eq, Structural)]
pub struct TerminalModes {
    pub application_cursor: bool,
    pub application_keypad: bool,
    pub hide_cursor: bool,
    pub wraparound: bool,
    pub alternate_screen: bool,
    pub bracketed_paste: bool,
    pub focus_reporting: bool,
    pub mouse: MouseModes,
}

/// The modes of a freshly reset terminal: only wraparound on.
pub open spec fn default_modes() -> TerminalModes {
    TerminalModes {
        application_cursor: false,
        application_keypad: false,
        hide_cursor: false,
        wraparound: true,
        alternate_screen: false,
        bracketed_paste: false,
        focus_reporting: false,
        mouse: MouseModes { normal_tracking: false, button_motion: false, any_motion: false, sgr: false },
    }
}

impl Default for TerminalModes {
    fn default() -> (r: Self)
        ensures
            r == default_modes(),
    {
        TerminalModes {
            application_cursor: false,
            application_keypad: false,
            hide_cursor: false,
            wraparound: true,
            alternate_screen: false,
            bracketed_paste: false,
            focus_reporting: false,
            mouse: MouseModes { normal_tracking: false, button_motion: false, any_motion: false, sgr: false },
        }
    }
}

/// The stable index and last change of a row on the viewport.
#[derive(Clone, Copy, Debug, PartialEq, Eq, Structural)]
pub struct VisibleLineInfo {
    pub stable_row: StableRowIndex,
    pub seqno: u64,
}

/// Whether column `col` has a tab stop by default: every eighth column but the first.
pub open spec fn default_tab_stop(col: int) -> bool {
    col != 0 && col % 8 == 0
}

/// Whether column `col` has a tab stop by default.
fn is_default_tab_stop(col: usize) -> (r: bool)
    ensures
        r == default_tab_stop(col as int),
{
    col != 0 && col % 8 == 0
}

/// The default tab stops of a screen `cols` columns wide.
fn default_tab_stops(cols: u16) -> (r: Vec<bool>)
    ensures
        r@ == Seq::new(cols as nat, |i: int| default_tab_stop(i)),
{
    let mut stops: Vec<bool> = Vec::with_capacity(cols as usize);
    let mut col: usize = 0;
    while col < cols as usize
        invariant
            col <= cols,
            stops@ == Seq::new(col as nat, |i: int| default_tab_stop(i)),
        decreases cols - col,
    {
        stops.push(is_default_tab_stop(col));
        col = col + 1;
        proof {
            assert(stops@ =~= Seq::new(col as nat, |i: int| default_tab_stop(i)));
        }
    }
    stops
}

/// The terminal state that escape sequences and printed characters act on.
pub struct TerminalState {
    rows: u16,
    cols: u16,
    scrollback_limit: usize,
    next_seqno: u64,
    primary: ScreenBuffer,
    alternate: ScreenBuffer,
    modes: TerminalModes,
    tab_stops: Vec<bool>,
}

impl TerminalState {
    /// The number of rows of the screen.
    pub closed spec fn rows_spec(&self) -> u16 {
        self.rows
    }

    /// The number of columns of the screen.
    pub closed spec fn cols_spec(&self) -> u16 {
        self.cols
    }

    /// The most rows of scrollback the primary screen keeps.
    pub closed spec fn limit_spec(&self) -> usize {
        self.scrollback_limit
    }

    /// The sequence number the next change is stamped with.
    pub closed spec fn seqno_spec(&self) -> u64 {
        self.next_seqno
    }

    /// The modes in force.
    pub closed spec fn modes_spec(&self) -> TerminalModes {
        self.modes
    }

    /// The tab stops, one per column.
    pub closed spec fn tab_stops_spec(&self) -> Seq<bool> {
        self.tab_stops@
    }

    /// The primary screen.
    pub closed spec fn primary_spec(&self) -> ScreenBuffer {
        self.primary
    }

    /// The alternate screen.
    pub closed spec fn alternate_spec(&self) -> ScreenBuffer {
        self.alternate
    }

    /// The screen in use.
    pub open spec fn active_spec(&self) -> ScreenBuffer {
        if self.modes_spec().alternate_screen {
            self.alternate_spec()
        } else {
            self.primary_spec()
        }
    }

    /// The scrollback limit of the screen in use: none for the alternate screen.
    pub open spec fn active_limit(&self) -> usize {
        if self.modes_spec().alternate_screen {
            0
        } else {
            self.limit_spec()
        }
    }

    /// The state is consistent: both screens have the terminal's size and the cursors stay on
    /// the screen.
    pub open spec fn wf(&self) -> bool {
        &&& self.rows_spec() >= 1
        &&& self.cols_spec() >= 1
        &&& self.primary_spec().wf()
        &&& self.alternate_spec().wf()
        &&& self.primary_spec().visible_rows == self.rows_spec()
        &&& self.alternate_spec().visible_rows == self.rows_spec()
        &&& self.primary_spec().cursor.col < self.cols_spec()
        &&& self.alternate_spec().cursor.col < self.cols_spec()
        &&& self.tab_stops_spec().len() == self.cols_spec()
    }

    /// There is room for the row counting of one more operation on either screen.
    pub open spec fn room(&self) -> bool {
        &&& self.primary_spec().room(0x40000)
        &&& self.alternate_spec().room(0x40000)
    }

    /// There is room for the row counting of a resize: rewrapping can make many rows of one.
    pub open spec fn resize_room(&self) -> bool {
        &&& self.room()
        &&& self.primary_spec().stable_row_offset + rewrap_room(self.primary_spec().lines()) + 0x40000 <= ROW_LIMIT
        &&& self.alternate_spec().stable_row_offset + rewrap_room(self.alternate_spec().lines()) + 0x40000 <= ROW_LIMIT
        &&& lines_bounded(self.primary_spec().lines())
        &&& lines_bounded(self.alternate_spec().lines())
    }

    /// `other` is `self` with only the screen in use changed, to `b`, and the sequence number,
    /// to `seq`.
    pub open spec fn changed_active(&self, other: &Self, b: ScreenBuffer, seq: u64) -> bool {
        &&& other.rows_spec() == self.rows_spec()
        &&& other.cols_spec() == self.cols_spec()
        &&& other.limit_spec() == self.limit_spec()
        &&& other.modes_spec() == self.modes_spec()
        &&& other.tab_stops_spec() == self.tab_stops_spec()
        &&& other.seqno_spec() == seq
        &&& other.active_spec() == b
        &&& if self.modes_spec().alternate_screen {
            other.primary_spec() == self.primary_spec()
        } else {
            other.alternate_spec() == self.alternate_spec()
        }
    }

    /// `other` is `self` with only the modes changed, to `m`.
    pub open spec fn changed_modes(&self, other: &Self, m: TerminalModes) -> bool {
        &&& other.rows_spec() == self.rows_spec()
        &&& other.cols_spec() == self.cols_spec()
        &&& other.limit_spec() == self.limit_spec()
        &&& other.modes_spec() == m
        &&& other.tab_stops_spec() == self.tab_stops_spec()
        &&& other.seqno_spec() == self.seqno_spec()
        &&& other.primary_spec() == self.primary_spec()
        &&& other.alternate_spec() == self.alternate_spec()
    }

    /// `other` is `self` with only the tab stops changed, to `stops`.
    pub open spec fn changed_tabs(&self, other: &Self, stops: Seq<bool>) -> bool {
        &&& other.rows_spec() == self.rows_spec()
        &&& other.cols_spec() == self.cols_spec()
        &&& other.limit_spec() == self.limit_spec()
        &&& other.modes_spec() == self.modes_spec()
        &&& other.tab_stops_spec() == stops
        &&& other.seqno_spec() == self.seqno_spec()
        &&& other.primary_spec() == self.primary_spec()
        &&& other.alternate_spec() == self.alternate_spec()
    }

    /// The sequence number after one more change.
    pub open spec fn bumped(&self) -> u64 {
        sat_add_u64(self.seqno_spec(), 1)
    }

    /// A terminal of `rows` rows and `cols` columns (each at least one) keeping up to
    /// `scrollback_limit` rows of scrollback: both screens blank, cursor at the origin, default
    /// modes and tab stops.
    pub fn new(rows: u16, cols: u16, scrollback_limit: usize) -> (r: Self)
        ensures
            r.wf(),
            r.room(),
            r.rows_spec() + 0x60000 <= ROW_LIMIT ==> r.resize_room(),
            r.rows_spec() == if rows > 1 { rows } else { 1 },
            r.cols_spec() == if cols > 1 { cols } else { 1 },
            r.limit_spec() == scrollback_limit,
            r.seqno_spec() == 1,
            r.modes_spec() == default_modes(),
            r.tab_stops_spec() == Seq::new(r.cols_spec() as nat, |i: int| default_tab_stop(i)),
            r.primary_spec().len() == r.rows_spec(),
            r.alternate_spec().len() == r.rows_spec(),
            forall|i: int| 0 <= i < r.rows_spec() ==> super::screen::is_blank_line(#[trigger] r.primary_spec().lines()[i], r.cols_spec() as int, 0),
            forall|i: int| 0 <= i < r.rows_spec() ==> super::screen::is_blank_line(#[trigger] r.alternate_spec().lines()[i], r.cols_spec() as int, 0),
            r.primary_spec().cursor == origin(),
            r.alternate_spec().cursor == origin(),
            r.primary_spec().attrs == default_attrs(),
            r.primary_spec().display_offset == 0,
            r.primary_spec().stable_row_offset == 0,
            super::screen::fresh(r.primary_spec(), r.rows_spec(), r.cols_spec(), 0),
            super::screen::fresh(r.alternate_spec(), r.rows_spec(), r.cols_spec(), 0),
    {
        let rows = if rows > 1 {
            rows
        } else {
            1
        };
        let cols = if cols > 1 {
            cols
        } else {
            1
        };
        let primary = ScreenBuffer::new(rows, cols, 0);
        let alternate = ScreenBuffer::new(rows, cols, 0);
        let r = TerminalState {
            rows,
            cols,
            scrollback_limit,
            next_seqno: 1,
            primary,
            alternate,
            modes: TerminalModes::default(),
            tab_stops: default_tab_stops(cols),
        };
        proof {
            assert forall|i: int| 0 <= i < r.primary.len() implies (#[trigger] r.primary.lines()[i]).0.len() <= 0xffff
                && r.primary.lines()[i].1 <= r.primary.lines()[i].0.len() by {
                assert(super::screen::is_blank_line(r.primary.lines()[i], cols as int, 0));
            }
            assert forall|i: int| 0 <= i < r.alternate.len() implies (#[trigger] r.alternate.lines()[i]).0.len() <= 0xffff
                && r.alternate.lines()[i].1 <= r.alternate.lines()[i].0.len() by {
                assert(super::screen::is_blank_line(r.alternate.lines()[i], cols as int, 0));
            }
            super::resize::lemma_occ_sum_zero(r.primary.lines(), r.primary.len() as int);
            super::resize::lemma_occ_sum_zero(r.alternate.lines(), r.alternate.len() as int);
        }
        r
    }

    /// The screen size: rows and columns.
    pub fn size(&self) -> (r: (u16, u16))
        ensures
            r == (self.rows_spec(), self.cols_spec()),
    {
        (self.rows, self.cols)
    }

    /// The cursor of the screen in use: row and column.
    pub fn cursor_position(&self) -> (r: (u16, u16))
        ensures
            r == (self.active_spec().cursor.row, self.active_spec().cursor.col),
    {
        let cursor = if self.modes.alternate_screen {
            self.alternate.cursor
        } else {
            self.primary.cursor
        };
        (cursor.row, cursor.col)
    }

    /// Whether the cursor is hidden.
    pub fn hide_cursor(&self) -> (r: bool)
        ensures
            r == self.modes_spec().hide_cursor,
    {
        self.modes.hide_cursor
    }

    /// Whether the cursor keys send application sequences.
    pub fn application_cursor(&self) -> (r: bool)
        ensures
            r == self.modes_spec().application_cursor,
    {
        self.modes.application_cursor
    }

    /// Whether the keypad sends application sequences.
    pub fn application_keypad(&self) -> (r: bool)
        ensures
            r == self.modes_spec().application_keypad,
    {
        self.modes.application_keypad
    }

    /// Whether pasted text is bracketed.
    pub fn bracketed_paste(&self) -> (r: bool)
        ensures
            r == self.modes_spec().bracketed_paste,
    {
        self.modes.bracketed_paste
    }

    /// Whether focus changes are reported.
    pub fn focus_reporting(&self) -> (r: bool)
        ensures
            r == self.modes_spec().focus_reporting,
    {
        self.modes.focus_reporting
    }

    /// The mouse tracking mode in force.
    pub fn mouse_tracking_mode(&self) -> (r: MouseTrackingMode)
        ensures
            r == tracking_of(self.modes_spec().mouse),
    {
        self.modes.mouse.tracking_mode()
    }

    /// Whether any mouse events are reported.
    pub fn mouse_reporting_enabled(&self) -> (r: bool)
        ensures
            r == (tracking_of(self.modes_spec().mouse) != MouseTrackingMode::Disabled),
    {
        let mode = self.mouse_tracking_mode();
        !matches!(mode, MouseTrackingMode::Disabled)
    }

    /// Whether mouse events are reported in the SGR encoding.
    pub fn sgr_mouse(&self) -> (r: bool)
        ensures
            r == self.modes_spec().mouse.sgr,
    {
        self.modes.mouse.sgr
    }
}

/// Where scrolling the viewport of `b` back by `rows` rows (at least one) takes it: that many
/// rows further into the scrollback, as far as there is scrollback.
pub open spec fn viewport_up_offset(b: ScreenBuffer, rows: u16) -> int {
    if b.display_offset + at_least_one(rows) < b.history() {
        b.display_offset + at_least_one(rows)
    } else {
        b.history()
    }
}

/// Where scrolling the viewport of `b` forward by `rows` rows (at least one) takes it: that
/// many rows towards the bottom, stopping there.
pub open spec fn viewport_down_offset(b: ScreenBuffer, rows: u16) -> int {
    if b.display_offset >= at_least_one(rows) {
        b.display_offset - at_least_one(rows)
    } else {
        0
    }
}

/// `a` where it is below `b`, else `b`.
pub open spec fn min_u16(a: u16, b: u16) -> int {
    if a < b { a as int } else { b as int }
}

/// The text row `row` contributes to the contents between (`start`, `sc`) and (`end`, `ec`):
/// from `sc` on for the first row, up to `ec` for the last, all of it for those between, each
/// but the last followed by a line break unless it wraps into the next; nothing for a row no
/// longer held.
pub open spec fn row_text(b: ScreenBuffer, row: int, start: int, end: int, sc: u16, ec: u16, cols: u16) -> Seq<char> {
    let i = row - b.stable_row_offset;
    if !(0 <= i < b.len()) {
        Seq::empty()
    } else {
        let l = b.lines()[i];
        let nl = if l.2 { Seq::empty() } else { seq!['\n'] };
        if row == start {
            text_view(l.0, min_u16(sc, cols), cols as int) + nl
        } else if row == end {
            text_view(l.0, 0, min_u16(ec, cols))
        } else {
            text_view(l.0, 0, cols as int) + nl
        }
    }
}

/// The text rows `start..upto` contribute.
pub open spec fn rows_text(b: ScreenBuffer, start: int, upto: int, end: int, sc: u16, ec: u16, cols: u16) -> Seq<char>
    decreases upto - start,
{
    if upto <= start {
        Seq::empty()
    } else {
        rows_text(b, start, upto - 1, end, sc, ec, cols) + row_text(b, upto - 1, start, end, sc, ec, cols)
    }
}

/// The text of rows `start..upto`, for rows before `end` and more than one row below `start`,
/// is that of row `start` followed by that of the rows after it, read as a selection that
/// starts at the first column of the next row.
pub proof fn lemma_rows_text_first(b: ScreenBuffer, start: int, upto: int, end: int, sc: u16, ec: u16, cols: u16)
    requires
        start + 1 < end,
        start < upto <= end + 1,
    ensures
        rows_text(b, start, upto, end, sc, ec, cols)
            == row_text(b, start, start, end, sc, ec, cols) + rows_text(b, start + 1, upto, end, 0, ec, cols),
    decreases upto - start,
{
    if upto == start + 1 {
        assert(rows_text(b, start, start, end, sc, ec, cols) =~= Seq::<char>::empty());
        assert(rows_text(b, start + 1, upto, end, 0, ec, cols) =~= Seq::<char>::empty());
        assert(rows_text(b, start, upto, end, sc, ec, cols) =~= row_text(b, start, start, end, sc, ec, cols));
    } else {
        lemma_rows_text_first(b, start, upto - 1, end, sc, ec, cols);
        let r = upto - 1;
        assert(row_text(b, r, start, end, sc, ec, cols) == row_text(b, r, start + 1, end, 0, ec, cols));
        assert(rows_text(b, start, upto, end, sc, ec, cols) =~= row_text(b, start, start, end, sc, ec, cols)
            + (rows_text(b, start + 1, upto - 1, end, 0, ec, cols) + row_text(b, r, start + 1, end, 0, ec, cols)));
    }
}

/// The text between column `sc` of stable row `start` and column `ec` of stable row `end`.
pub open spec fn contents_spec(b: ScreenBuffer, start: int, sc: u16, end: int, ec: u16, cols: u16) -> Seq<char> {
    if start < end {
        rows_text(b, start, end + 1, end, sc, ec, cols)
    } else if start == end {
        let i = start - b.stable_row_offset;
        if 0 <= i < b.len() {
            text_view(b.lines()[i].0, min_u16(sc, cols), min_u16(ec, cols))
        } else {
            Seq::empty()
        }
    } else {
        Seq::empty()
    }
}

impl TerminalState {
    /// The screen in use.
    fn active(&self) -> (r: &ScreenBuffer)
        ensures
            *r == self.active_spec(),
    {
        if self.modes.alternate_screen {
            &self.alternate
        } else {
            &self.primary
        }
    }

    /// The cursor on the viewport, if the viewport shows the cursor row.
    pub fn visible_cursor_position(&self) -> (r: Option<(u16, u16)>)
        requires
            self.wf(),
        ensures
            ({
                let b = self.active_spec();
                let s = b.stable_row_offset + b.abs_row(b.cursor.row as int);
                r == if b.viewport_top_spec() <= s < b.viewport_top_spec() + b.visible_rows {
                    Some(((s - b.viewport_top_spec()) as u16, b.cursor.col))
                } else {
                    None::<(u16, u16)>
                }
            }),
    {
        self.active().visible_cursor_position()
    }

    /// The stable index of the top row of the viewport.
    pub fn viewport_top(&self) -> (r: StableRowIndex)
        requires
            self.wf(),
        ensures
            r == self.active_spec().viewport_top_spec(),
    {
        self.active().viewport_top()
    }

    /// The stable index of viewport row `row`, kept on the screen.
    pub fn visible_row_to_stable_row(&self, row: u16) -> (r: StableRowIndex)
        requires
            self.wf(),
        ensures
            r == self.active_spec().stable_of_visible(row as int),
    {
        self.active().visible_row_to_stable_row(row)
    }

    /// The viewport row showing stable row `stable_row`, if any.
    pub fn stable_row_to_visible_row(&self, stable_row: StableRowIndex) -> (r: Option<u16>)
        requires
            self.wf(),
        ensures
            ({
                let b = self.active_spec();
                r == if b.viewport_top_spec() <= stable_row < b.viewport_top_spec() + b.visible_rows {
                    Some((stable_row - b.viewport_top_spec()) as u16)
                } else {
                    None::<u16>
                }
            }),
    {
        self.active().stable_row_to_visible_row(stable_row)
    }

    /// The row with stable index `stable_row`, if it is still held.
    pub fn line_for_stable_row(&self, stable_row: StableRowIndex) -> (r: Option<&BufferRow>)
        requires
            self.wf(),
        ensures
            ({
                let b = self.active_spec();
                let i = stable_row - b.stable_row_offset;
                &&& 0 <= i < b.len() ==> (r matches Some(l) && l@ == b.lines()[i])
                &&& !(0 <= i < b.len()) ==> r is None
            }),
    {
        self.active().line_for_stable_row(stable_row)
    }

    /// The row shown at viewport row `row`, kept on the screen.
    pub fn visible_row(&self, row: u16) -> (r: Option<&BufferRow>)
        requires
            self.wf(),
        ensures
            ({
                let b = self.active_spec();
                let i = b.stable_of_visible(row as int) - b.stable_row_offset;
                &&& 0 <= i < b.len() ==> (r matches Some(l) && l@ == b.lines()[i])
                &&& !(0 <= i < b.len()) ==> r is None
            }),
    {
        self.active().visible_row(row)
    }

    /// The stable index and last change of the row at viewport row `row`.
    pub fn visible_line_info(&self, row: u16) -> (r: Option<VisibleLineInfo>)
        requires
            self.wf(),
        ensures
            ({
                let b = self.active_spec();
                let stable = b.stable_of_visible(row as int);
                let i = stable - b.stable_row_offset;
                r == if 0 <= i < b.len() {
                    Some(VisibleLineInfo { stable_row: stable as usize, seqno: b.lines()[i].3 })
                } else {
                    None::<VisibleLineInfo>
                }
            }),
    {
        let stable_row = self.visible_row_to_stable_row(row);
        match self.line_for_stable_row(stable_row) {
            Some(line) => Some(VisibleLineInfo { stable_row, seqno: line.seqno() }),
            None => None,
        }
    }

    /// The cell at viewport row `row`, column `col`.
    pub fn cell(&self, row: u16, col: u16) -> (r: Option<&TerminalCell>)
        requires
            self.wf(),
        ensures
            ({
                let b = self.active_spec();
                let i = b.stable_of_visible(row as int) - b.stable_row_offset;
                &&& (0 <= i < b.len() && col < b.lines()[i].0.len()) ==> (r matches Some(c) && c@ == b.lines()[i].0[col as int])
                &&& !(0 <= i < b.len() && col < b.lines()[i].0.len()) ==> r is None
            }),
    {
        match self.visible_row(row) {
            Some(line) => line.cell(col),
            None => None,
        }
    }

    /// The cell at column `col` of stable row `stable_row`.
    pub fn cell_at_stable_row(&self, stable_row: StableRowIndex, col: u16) -> (r: Option<&TerminalCell>)
        requires
            self.wf(),
        ensures
            ({
                let b = self.active_spec();
                let i = stable_row - b.stable_row_offset;
                &&& (0 <= i < b.len() && col < b.lines()[i].0.len()) ==> (r matches Some(c) && c@ == b.lines()[i].0[col as int])
                &&& !(0 <= i < b.len() && col < b.lines()[i].0.len()) ==> r is None
            }),
    {
        match self.line_for_stable_row(stable_row) {
            Some(line) => line.cell(col),
            None => None,
        }
    }

    /// The text between column `start_col` of stable row `start_row` and column `end_col` of
    /// stable row `end_row`, as `contents_spec` says.
    pub fn contents_between_stable(&self, start_row: StableRowIndex, start_col: u16, end_row: StableRowIndex, end_col: u16) -> (r: String)
        requires
            self.wf(),
        ensures
            r@ == contents_spec(self.active_spec(), start_row as int, start_col, end_row as int, end_col, self.cols_spec()),
    {
        let cols = self.cols;
        let sc = if start_col < cols {
            start_col
        } else {
            cols
        };
        let ec = if end_col < cols {
            end_col
        } else {
            cols
        };
        if start_row < end_row {
            let ghost b = self.active_spec();
            let mut contents = String::new();
            let mut row = start_row;
            proof {
                assert(contents@ =~= rows_text(b, start_row as int, row as int, end_row as int, start_col, end_col, cols));
            }
            while row <= end_row
                invariant
                    b == self.active_spec(),
                    self.wf(),
                    cols == self.cols_spec(),
                    sc == min_u16(start_col, cols),
                    ec == min_u16(end_col, cols),
                    start_row < end_row,
                    start_row <= row,
                    row <= end_row + 1,
                    contents@ == rows_text(b, start_row as int, row as int, end_row as int, start_col, end_col, cols),
                decreases end_row + 1 - row,
            {
                let ghost before = contents@;
                match self.line_for_stable_row(row) {
                    Some(line) => {
                        if row == start_row {
                            let t = line.text_range(sc, cols);
                            contents.append(t.as_str());
                            if !line.wrapped() {
                                super::cells::string_push(&mut contents, '\n');
                            }
                        } else if row == end_row {
                            let t = line.text_range(0, ec);
                            contents.append(t.as_str());
                        } else {
                            let t = line.text_range(0, cols);
                            contents.append(t.as_str());
                            if !line.wrapped() {
                                super::cells::string_push(&mut contents, '\n');
                            }
                        }
                    },
                    None => {},
                }
                proof {
                    assert(contents@ =~= before + row_text(b, row as int, start_row as int, end_row as int, start_col, end_col, cols));
                }
                if row == end_row {
                    return contents;
                }
                row = row + 1;
            }
            contents
        } else if start_row == end_row {
            match self.line_for_stable_row(start_row) {
                Some(line) => line.text_range(sc, ec),
                None => String::new(),
            }
        } else {
            String::new()
        }
    }

    /// The text between column `start_col` of viewport row `start_row` and column `end_col` of
    /// viewport row `end_row`, the rows kept on the screen.
    pub fn contents_between(&self, start_row: u16, start_col: u16, end_row: u16, end_col: u16) -> (r: String)
        requires
            self.wf(),
        ensures
            ({
                let b = self.active_spec();
                let max_row = (self.rows_spec() - 1) as u16;
                let s = b.stable_of_visible(min_u16(start_row, max_row));
                let e = b.stable_of_visible(min_u16(end_row, max_row));
                r@ == contents_spec(b, s, start_col, e, end_col, self.cols_spec())
            }),
    {
        let max_row = self.rows - 1;
        let s = if start_row < max_row {
            start_row
        } else {
            max_row
        };
        let e = if end_row < max_row {
            end_row
        } else {
            max_row
        };
        let start = self.visible_row_to_stable_row(s);
        let end = self.visible_row_to_stable_row(e);
        self.contents_between_stable(start, start_col, end, end_col)
    }
}

/// `a - b`, or zero where that is negative.
pub open spec fn sat_sub_u16(a: u16, b: int) -> u16 {
    if a >= b { (a - b) as u16 } else { 0 }
}

/// `count`, or one where it is zero.
pub open spec fn at_least_one(count: u16) -> int {
    if count > 1 { count as int } else { 1 }
}

/// `b` with its cursor at `cursor` and no wrap pending.
pub open spec fn cursor_moved(b: ScreenBuffer, cursor: GridCursor) -> ScreenBuffer {
    ScreenBuffer { cursor, pending_wrap: false, ..b }
}

/// `b` drawing with the attributes `attrs`.
pub open spec fn with_attrs(b: ScreenBuffer, attrs: CellAttributes) -> ScreenBuffer {
    ScreenBuffer { attrs, ..b }
}

impl TerminalState {
    /// Takes the next sequence number.
    fn bump_seqno(&mut self) -> (r: u64)
        ensures
            r == old(self).seqno_spec(),
            *final(self) == (TerminalState { next_seqno: old(self).bumped(), ..*old(self) }),
    {
        let seqno = self.next_seqno;
        self.next_seqno = self.next_seqno.saturating_add(1);
        seqno
    }

    /// Replaces the cursor of the screen in use, clearing any pending wrap.
    fn move_active_cursor(&mut self, cursor: GridCursor)
        requires
            old(self).wf(),
            cursor.col < old(self).cols_spec(),
        ensures
            final(self).wf(),
            old(self).changed_active(final(self), cursor_moved(old(self).active_spec(), cursor), old(self).seqno_spec()),
    {
        if self.modes.alternate_screen {
            self.alternate.cursor = cursor;
            self.alternate.pending_wrap = false;
        } else {
            self.primary.cursor = cursor;
            self.primary.pending_wrap = false;
        }
    }

    /// Replaces the attributes of the screen in use.
    pub(crate) fn set_active_attrs(&mut self, attrs: CellAttributes)
        requires
            old(self).wf(),
        ensures
            final(self).wf(),
            old(self).changed_active(final(self), with_attrs(old(self).active_spec(), attrs), old(self).seqno_spec()),
    {
        if self.modes.alternate_screen {
            self.alternate.attrs = attrs;
        } else {
            self.primary.attrs = attrs;
        }
    }

    /// The attributes of the screen in use.
    pub(crate) fn active_attrs(&self) -> (r: CellAttributes)
        ensures
            r == self.active_spec().attrs,
    {
        self.active().attrs
    }

    /// The cursor of the screen in use.
    fn active_cursor(&self) -> (r: GridCursor)
        ensures
            r == self.active_spec().cursor,
    {
        self.active().cursor
    }

    /// Scrolls the viewport back to the bottom; whether it moved.
    pub fn follow_viewport_bottom(&mut self) -> (r: bool)
        requires
            old(self).wf(),
        ensures
            final(self).wf(),
            r == (old(self).active_spec().display_offset != 0),
            old(self).changed_active(
                final(self),
                ScreenBuffer { display_offset: 0, ..old(self).active_spec() },
                old(self).seqno_spec(),
            ),
    {
        if self.modes.alternate_screen {
            self.alternate.set_viewport_bottom_follow()
        } else {
            self.primary.set_viewport_bottom_follow()
        }
    }

    /// Scrolls the viewport `rows` rows (at least one) back into the scrollback, as far as
    /// there is scrollback; whether it moved.
    pub fn scroll_viewport_up(&mut self, rows: u16) -> (r: bool)
        requires
            old(self).wf(),
        ensures
            final(self).wf(),
            ({
                let b = old(self).active_spec();
                let next = viewport_up_offset(b, rows);
                &&& r == (next != b.display_offset)
                &&& old(self).changed_active(final(self), ScreenBuffer { display_offset: next as usize, ..b }, old(self).seqno_spec())
            }),
    {
        if self.modes.alternate_screen {
            self.alternate.scroll_viewport_up(rows)
        } else {
            self.primary.scroll_viewport_up(rows)
        }
    }

    /// Scrolls the viewport `rows` rows (at least one) toward the bottom; whether it moved.
    pub fn scroll_viewport_down(&mut self, rows: u16) -> (r: bool)
        requires
            old(self).wf(),
        ensures
            final(self).wf(),
            ({
                let b = old(self).active_spec();
                let next = viewport_down_offset(b, rows);
                &&& r == (next != b.display_offset)
                &&& old(self).changed_active(final(self), ScreenBuffer { display_offset: next as usize, ..b }, old(self).seqno_spec())
            }),
    {
        if self.modes.alternate_screen {
            self.alternate.scroll_viewport_down(rows)
        } else {
            self.primary.scroll_viewport_down(rows)
        }
    }

    /// What `carriage_return` does, giving `other`.
    pub open spec fn carriage_return_effect(&self, other: &Self) -> bool {
        &&& other.wf()
        &&& self.changed_active(
            other,
            cursor_moved(self.active_spec(), GridCursor { row: self.active_spec().cursor.row, col: 0 }),
            self.seqno_spec(),
        )
    }

    /// Moves the cursor to the first column.
    pub fn carriage_return(&mut self)
        requires
            old(self).wf(),
        ensures
            old(self).carriage_return_effect(final(self)),
    {
        let c = self.active_cursor();
        self.move_active_cursor(GridCursor { row: c.row, col: 0 });
    }

    /// What `backspace` does, giving `other`.
    pub open spec fn backspace_effect(&self, other: &Self) -> bool {
        &&& other.wf()
        &&& self.changed_active(
            other,
            cursor_moved(
                self.active_spec(),
                GridCursor { row: self.active_spec().cursor.row, col: sat_sub_u16(self.active_spec().cursor.col, 1) },
            ),
            self.seqno_spec(),
        )
    }

    /// Moves the cursor one column left, stopping at the first.
    pub fn backspace(&mut self)
        requires
            old(self).wf(),
        ensures
            old(self).backspace_effect(final(self)),
    {
        let c = self.active_cursor();
        self.move_active_cursor(GridCursor { row: c.row, col: c.col.saturating_sub(1) });
    }

    /// What `cursor_up` does, giving `other`.
    pub open spec fn cursor_up_effect(&self, other: &Self, count: u16) -> bool {
        &&& other.wf()
        &&& {
            let b = self.active_spec();
            let top = if b.scroll_top <= b.cursor.row <= b.scroll_bottom { b.scroll_top } else { 0 };
            let up = sat_sub_u16(b.cursor.row, at_least_one(count));
            let row = if up > top { up } else { top };
            self.changed_active(other, cursor_moved(b, GridCursor { row, col: b.cursor.col }), self.seqno_spec())
        }
    }

    /// Moves the cursor `count` rows (at least one) up, stopping at the top of the scroll
    /// region when it starts within it, else at the top of the screen.
    pub fn cursor_up(&mut self, count: u16)
        requires
            old(self).wf(),
        ensures
            old(self).cursor_up_effect(final(self), count),
    {
        let b = self.active();
        let c = b.cursor;
        let top = if c.row >= b.scroll_top && c.row <= b.scroll_bottom {
            b.scroll_top
        } else {
            0
        };
        let n = if count > 1 {
            count
        } else {
            1
        };
        let up = c.row.saturating_sub(n);
        let row = if up > top {
            up
        } else {
            top
        };
        self.move_active_cursor(GridCursor { row, col: c.col });
    }

    /// What `cursor_down` does, giving `other`.
    pub open spec fn cursor_down_effect(&self, other: &Self, count: u16) -> bool {
        &&& other.wf()
        &&& {
            let b = self.active_spec();
            let bottom = if b.scroll_top <= b.cursor.row <= b.scroll_bottom {
                b.scroll_bottom
            } else {
                (self.rows_spec() - 1) as u16
            };
            let down = ((b.cursor.row + at_least_one(count)) % 0x10000) as u16;
            let row = if down < bottom { down } else { bottom };
            self.changed_active(other, cursor_moved(b, GridCursor { row, col: b.cursor.col }), self.seqno_spec())
        }
    }

    /// Moves the cursor `count` rows (at least one) down, stopping at the bottom of the scroll
    /// region when it starts within it, else at the bottom of the screen; the row arithmetic
    /// wraps around at `u16::MAX`.
    pub fn cursor_down(&mut self, count: u16)
        requires
            old(self).wf(),
        ensures
            old(self).cursor_down_effect(final(self), count),
    {
        let rows = self.rows;
        let b = self.active();
        let c = b.cursor;
        let bottom = if c.row >= b.scroll_top && c.row <= b.scroll_bottom {
            b.scroll_bottom
        } else {
            rows - 1
        };
        let n = if count > 1 {
            count
        } else {
            1
        };
        let down = c.row.wrapping_add(n);
        let row = if down < bottom {
            down
        } else {
            bottom
        };
        self.move_active_cursor(GridCursor { row, col: c.col });
    }

    /// What `cursor_forward` does, giving `other`.
    pub open spec fn cursor_forward_effect(&self, other: &Self, count: u16) -> bool {
        &&& other.wf()
        &&& {
            let b = self.active_spec();
            let right = ((b.cursor.col + at_least_one(count)) % 0x10000) as u16;
            let last = (self.cols_spec() - 1) as u16;
            let col = if right < last { right } else { last };
            self.changed_active(other, cursor_moved(b, GridCursor { row: b.cursor.row, col }), self.seqno_spec())
        }
    }

    /// Moves the cursor `count` columns (at least one) right, stopping at the last column; the
    /// column arithmetic wraps around at `u16::MAX`.
    pub fn cursor_forward(&mut self, count: u16)
        requires
            old(self).wf(),
        ensures
            old(self).cursor_forward_effect(final(self), count),
    {
        let last = self.cols - 1;
        let c = self.active_cursor();
        let n = if count > 1 {
            count
        } else {
            1
        };
        let right = c.col.wrapping_add(n);
        let col = if right < last {
            right
        } else {
            last
        };
        self.move_active_cursor(GridCursor { row: c.row, col });
    }

    /// What `cursor_back` does, giving `other`.
    pub open spec fn cursor_back_effect(&self, other: &Self, count: u16) -> bool {
        &&& other.wf()
        &&& {
            let b = self.active_spec();
            self.changed_active(
                other,
                cursor_moved(b, GridCursor { row: b.cursor.row, col: sat_sub_u16(b.cursor.col, at_least_one(count)) }),
                self.seqno_spec(),
            )
        }
    }

    /// Moves the cursor `count` columns (at least one) left, stopping at the first.
    pub fn cursor_back(&mut self, count: u16)
        requires
            old(self).wf(),
        ensures
            old(self).cursor_back_effect(final(self), count),
    {
        let c = self.active_cursor();
        let n = if count > 1 {
            count
        } else {
            1
        };
        self.move_active_cursor(GridCursor { row: c.row, col: c.col.saturating_sub(n) });
    }

    /// What `cursor_next_line` does, giving `other`.
    pub open spec fn cursor_next_line_effect(&self, other: &Self, count: u16) -> bool {
        &&& other.wf()
        &&& {
            let b = self.active_spec();
            let bottom = if b.scroll_top <= b.cursor.row <= b.scroll_bottom {
                b.scroll_bottom
            } else {
                (self.rows_spec() - 1) as u16
            };
            let down = ((b.cursor.row + at_least_one(count)) % 0x10000) as u16;
            let row = if down < bottom { down } else { bottom };
            self.changed_active(other, cursor_moved(b, GridCursor { row, col: 0 }), self.seqno_spec())
        }
    }

    /// Moves the cursor `count` rows down, as `cursor_down` does, and to the first column.
    pub fn cursor_next_line(&mut self, count: u16)
        requires
            old(self).wf(),
        ensures
            old(self).cursor_next_line_effect(final(self), count),
    {
        self.cursor_down(count);
        self.carriage_return();
    }

    /// What `cursor_prev_line` does, giving `other`.
    pub open spec fn cursor_prev_line_effect(&self, other: &Self, count: u16) -> bool {
        &&& other.wf()
        &&& {
            let b = self.active_spec();
            let top = if b.scroll_top <= b.cursor.row <= b.scroll_bottom { b.scroll_top } else { 0 };
            let up = sat_sub_u16(b.cursor.row, at_least_one(count));
            let row = if up > top { up } else { top };
            self.changed_active(other, cursor_moved(b, GridCursor { row, col: 0 }), self.seqno_spec())
        }
    }

    /// Moves the cursor `count` rows up, as `cursor_up` does, and to the first column.
    pub fn cursor_prev_line(&mut self, count: u16)
        requires
            old(self).wf(),
        ensures
            old(self).cursor_prev_line_effect(final(self), count),
    {
        self.cursor_up(count);
        self.carriage_return();
    }

    /// What `set_cursor_col` does, giving `other`.
    pub open spec fn set_cursor_col_effect(&self, other: &Self, col: u16) -> bool {
        &&& other.wf()
        &&& {
            let b = self.active_spec();
            let last = (self.cols_spec() - 1) as u16;
            self.changed_active(
                other,
                cursor_moved(b, GridCursor { row: b.cursor.row, col: if col < last { col } else { last } }),
                self.seqno_spec(),
            )
        }
    }

    /// Moves the cursor to column `col`, kept on the screen.
    pub fn set_cursor_col(&mut self, col: u16)
        requires
            old(self).wf(),
        ensures
            old(self).set_cursor_col_effect(final(self), col),
    {
        let last = self.cols - 1;
        let c = self.active_cursor();
        self.move_active_cursor(GridCursor { row: c.row, col: if col < last { col } else { last } });
    }

    /// What `set_cursor_row` does, giving `other`.
    pub open spec fn set_cursor_row_effect(&self, other: &Self, row: u16) -> bool {
        &&& other.wf()
        &&& {
            let b = self.active_spec();
            let last = (self.rows_spec() - 1) as u16;
            self.changed_active(
                other,
                cursor_moved(b, GridCursor { row: if row < last { row } else { last }, col: b.cursor.col }),
                self.seqno_spec(),
            )
        }
    }

    /// Moves the cursor to row `row`, kept on the screen.
    pub fn set_cursor_row(&mut self, row: u16)
        requires
            old(self).wf(),
        ensures
            old(self).set_cursor_row_effect(final(self), row),
    {
        let last = self.rows - 1;
        let c = self.active_cursor();
        self.move_active_cursor(GridCursor { row: if row < last { row } else { last }, col: c.col });
    }

    /// What `set_cursor_position` does, giving `other`.
    pub open spec fn set_cursor_position_effect(&self, other: &Self, row: u16, col: u16) -> bool {
        &&& other.wf()
        &&& {
            let last_row = (self.rows_spec() - 1) as u16;
            let last_col = (self.cols_spec() - 1) as u16;
            self.changed_active(
                other,
                cursor_moved(
                    self.active_spec(),
                    GridCursor { row: if row < last_row { row } else { last_row }, col: if col < last_col { col } else { last_col } },
                ),
                self.seqno_spec(),
            )
        }
    }

    /// Moves the cursor to row `row` and column `col`, kept on the screen.
    pub fn set_cursor_position(&mut self, row: u16, col: u16)
        requires
            old(self).wf(),
        ensures
            old(self).set_cursor_position_effect(final(self), row, col),
    {
        let last_row = self.rows - 1;
        let last_col = self.cols - 1;
        self.move_active_cursor(GridCursor {
            row: if row < last_row { row } else { last_row },
            col: if col < last_col { col } else { last_col },
        });
    }

    /// What `save_cursor` does, giving `other`.
    pub open spec fn save_cursor_effect(&self, other: &Self) -> bool {
        &&& other.wf()
        &&& {
            let b = self.active_spec();
            self.changed_active(
                other,
                ScreenBuffer { saved_cursor: SavedCursor { cursor: b.cursor, attrs: b.attrs }, ..b },
                self.seqno_spec(),
            )
        }
    }

    /// Saves the cursor and the attributes in force.
    pub fn save_cursor(&mut self)
        requires
            old(self).wf(),
        ensures
            old(self).save_cursor_effect(final(self)),
    {
        if self.modes.alternate_screen {
            self.alternate.save_cursor();
        } else {
            self.primary.save_cursor();
        }
    }

    /// What `restore_cursor` does, giving `other`.
    pub open spec fn restore_cursor_effect(&self, other: &Self) -> bool {
        &&& other.wf()
        &&& {
            let b = self.active_spec();
            let last = (self.cols_spec() - 1) as u16;
            let saved = b.saved_cursor.cursor;
            self.changed_active(
                other,
                ScreenBuffer {
                    cursor: GridCursor { row: saved.row, col: if saved.col < last { saved.col } else { last } },
                    attrs: b.saved_cursor.attrs,
                    pending_wrap: false,
                    ..b
                },
                self.seqno_spec(),
            )
        }
    }

    /// Restores the saved cursor and attributes, the column kept on the screen.
    pub fn restore_cursor(&mut self)
        requires
            old(self).wf(),
        ensures
            old(self).restore_cursor_effect(final(self)),
    {
        let cols = self.cols;
        if self.modes.alternate_screen {
            self.alternate.restore_cursor(cols);
        } else {
            self.primary.restore_cursor(cols);
        }
    }

    /// Switches the keypad between application and normal sequences.
    pub fn set_keypad_application_mode(&mut self, enabled: bool)
        requires
            old(self).wf(),
        ensures
            final(self).wf(),
            old(self).changed_modes(final(self), TerminalModes { application_keypad: enabled, ..old(self).modes_spec() }),
    {
        self.modes.application_keypad = enabled;
    }

    /// Resets the attributes to the defaults.
    pub fn set_attr_reset(&mut self)
        requires
            old(self).wf(),
        ensures
            final(self).wf(),
            old(self).changed_active(final(self), with_attrs(old(self).active_spec(), default_attrs()), old(self).seqno_spec()),
    {
        self.set_active_attrs(CellAttributes::default());
    }

    /// Sets the foreground colour.
    pub fn set_fg(&mut self, color: TerminalColor)
        requires
            old(self).wf(),
        ensures
            final(self).wf(),
            old(self).changed_active(
                final(self),
                with_attrs(old(self).active_spec(), CellAttributes { fg: color, ..old(self).active_spec().attrs }),
                old(self).seqno_spec(),
            ),
    {
        let a = self.active_attrs();
        self.set_active_attrs(CellAttributes { fg: color, ..a });
    }

    /// Sets the background colour.
    pub fn set_bg(&mut self, color: TerminalColor)
        requires
            old(self).wf(),
        ensures
            final(self).wf(),
            old(self).changed_active(
                final(self),
                with_attrs(old(self).active_spec(), CellAttributes { bg: color, ..old(self).active_spec().attrs }),
                old(self).seqno_spec(),
            ),
    {
        let a = self.active_attrs();
        self.set_active_attrs(CellAttributes { bg: color, ..a });
    }

    /// Switches bold on or off; bold on switches dim off.
    pub fn set_bold(&mut self, enabled: bool)
        requires
            old(self).wf(),
        ensures
            final(self).wf(),
            ({
                let a = old(self).active_spec().attrs;
                old(self).changed_active(
                    final(self),
                    with_attrs(old(self).active_spec(), CellAttributes { bold: enabled, dim: if enabled { false } else { a.dim }, ..a }),
                    old(self).seqno_spec(),
                )
            }),
    {
        let a = self.active_attrs();
        self.set_active_attrs(CellAttributes { bold: enabled, dim: if enabled { false } else { a.dim }, ..a });
    }

    /// Switches dim on or off; dim on switches bold off.
    pub fn set_dim(&mut self, enabled: bool)
        requires
            old(self).wf(),
        ensures
            final(self).wf(),
            ({
                let a = old(self).active_spec().attrs;
                old(self).changed_active(
                    final(self),
                    with_attrs(old(self).active_spec(), CellAttributes { dim: enabled, bold: if enabled { false } else { a.bold }, ..a }),
                    old(self).seqno_spec(),
                )
            }),
    {
        let a = self.active_attrs();
        self.set_active_attrs(CellAttributes { dim: enabled, bold: if enabled { false } else { a.bold }, ..a });
    }

    /// Switches italic on or off.
    pub fn set_italic(&mut self, enabled: bool)
        requires
            old(self).wf(),
        ensures
            final(self).wf(),
            old(self).changed_active(
                final(self),
                with_attrs(old(self).active_spec(), CellAttributes { italic: enabled, ..old(self).active_spec().attrs }),
                old(self).seqno_spec(),
            ),
    {
        let a = self.active_attrs();
        self.set_active_attrs(CellAttributes { italic: enabled, ..a });
    }

    /// Switches underline on or off.
    pub fn set_underline(&mut self, enabled: bool)
        requires
            old(self).wf(),
        ensures
            final(self).wf(),
            old(self).changed_active(
                final(self),
                with_attrs(old(self).active_spec(), CellAttributes { underline: enabled, ..old(self).active_spec().attrs }),
                old(self).seqno_spec(),
            ),
    {
        let a = self.active_attrs();
        self.set_active_attrs(CellAttributes { underline: enabled, ..a });
    }

    /// Switches inverse video on or off.
    pub fn set_inverse(&mut self, enabled: bool)
        requires
            old(self).wf(),
        ensures
            final(self).wf(),
            old(self).changed_active(
                final(self),
                with_attrs(old(self).active_spec(), CellAttributes { inverse: enabled, ..old(self).active_spec().attrs }),
                old(self).seqno_spec(),
            ),
    {
        let a = self.active_attrs();
        self.set_active_attrs(CellAttributes { inverse: enabled, ..a });
    }

    /// What `set_scroll_region` does, giving `other`.
    pub open spec fn set_scroll_region_effect(&self, other: &Self, top: u16, bottom: u16) -> bool {
        &&& other.wf()
        &&& {
            let b = self.active_spec();
            let whole = top >= bottom || bottom >= self.rows_spec();
            self.changed_active(
                other,
                ScreenBuffer {
                    scroll_top: if whole { 0 } else { top },
                    scroll_bottom: if whole { (self.rows_spec() - 1) as u16 } else { bottom },
                    cursor: origin(),
                    pending_wrap: false,
                    ..b
                },
                self.seqno_spec(),
            )
        }
    }

    /// Sets the scroll region to rows `top..=bottom`, or to the whole screen where those do
    /// not make a region of at least two rows on it, and moves the cursor to the origin.
    pub fn set_scroll_region(&mut self, top: u16, bottom: u16)
        requires
            old(self).wf(),
        ensures
            old(self).set_scroll_region_effect(final(self), top, bottom),
    {
        let rows = self.rows;
        let (t, b) = if top >= bottom || bottom >= rows {
            (0, rows - 1)
        } else {
            (top, bottom)
        };
        if self.modes.alternate_screen {
            self.alternate.scroll_top = t;
            self.alternate.scroll_bottom = b;
            self.alternate.cursor = GridCursor { row: 0, col: 0 };
            self.alternate.pending_wrap = false;
        } else {
            self.primary.scroll_top = t;
            self.primary.scroll_bottom = b;
            self.primary.cursor = GridCursor { row: 0, col: 0 };
            self.primary.pending_wrap = false;
        }
    }
}

/// The first column from `i` on with a tab stop.
pub open spec fn stop_from(stops: Seq<bool>, i: int) -> Option<int>
    decreases stops.len() - i,
{
    if i < 0 || i >= stops.len() {
        None
    } else if stops[i] {
        Some(i)
    } else {
        stop_from(stops, i + 1)
    }
}

/// The last column before `i` with a tab stop.
pub open spec fn stop_before(stops: Seq<bool>, i: int) -> Option<int>
    decreases i,
{
    if i <= 0 {
        None
    } else if i - 1 < stops.len() && stops[i - 1] {
        Some(i - 1)
    } else {
        stop_before(stops, i - 1)
    }
}

/// Where one tab moves the cursor from `col`: to the next tab stop, or to the last column.
pub open spec fn tab_target(stops: Seq<bool>, col: int, last: int) -> int {
    match stop_from(stops, col + 1) {
        Some(c) => c,
        None => last,
    }
}

/// Where `k` tabs move the cursor from `col`, each kept on the screen.
pub open spec fn tabbed(stops: Seq<bool>, col: int, k: nat, last: int) -> int
    decreases k,
{
    if k == 0 {
        col
    } else {
        let c = tabbed(stops, col, (k - 1) as nat, last);
        let t = tab_target(stops, c, last);
        if t < last { t } else { last }
    }
}

/// Where `k` backward tabs move the cursor from `col`: to the previous tab stop each time, or to
/// the first column.
pub open spec fn back_tabbed(stops: Seq<bool>, col: int, k: nat) -> int
    decreases k,
{
    if k == 0 {
        col
    } else {
        match stop_before(stops, back_tabbed(stops, col, (k - 1) as nat)) {
            Some(c) => c,
            None => 0,
        }
    }
}

proof fn lemma_stop_from(stops: Seq<bool>, i: int)
    ensures
        stop_from(stops, i) matches Some(c) ==> i <= c < stops.len() && stops[c],
    decreases stops.len() - i,
{
    if !(i < 0 || i >= stops.len()) && !stops[i] {
        lemma_stop_from(stops, i + 1);
    }
}

proof fn lemma_stop_before(stops: Seq<bool>, i: int)
    ensures
        stop_before(stops, i) matches Some(c) ==> 0 <= c < i && c < stops.len() && stops[c],
    decreases i,
{
    if i > 0 && !(i - 1 < stops.len() && stops[i - 1]) {
        lemma_stop_before(stops, i - 1);
    }
}

impl TerminalState {
    /// The first column after `start` with a tab stop.
    fn next_tab_stop(&self, start: usize) -> (r: Option<usize>)
        ensures
            r == (match stop_from(self.tab_stops@, start + 1) {
                Some(c) => Some(c as usize),
                None => None::<usize>,
            }),
    {
        proof {
            lemma_stop_from(self.tab_stops@, start + 1);
        }
        if start >= self.tab_stops.len() {
            return None;
        }
        let mut col = start + 1;
        while col < self.tab_stops.len()
            invariant
                start < col <= self.tab_stops@.len(),
                stop_from(self.tab_stops@, start + 1) == stop_from(self.tab_stops@, col as int),
            decreases self.tab_stops@.len() - col,
        {
            if self.tab_stops[col] {
                return Some(col);
            }
            col = col + 1;
        }
        None
    }

    /// The last column before `start` with a tab stop.
    fn previous_tab_stop(&self, start: usize) -> (r: Option<usize>)
        ensures
            r == (match stop_before(self.tab_stops@, start as int) {
                Some(c) => Some(c as usize),
                None => None::<usize>,
            }),
    {
        proof {
            lemma_stop_before(self.tab_stops@, start as int);
        }
        let mut col = start;
        while col > 0
            invariant
                col <= start,
                stop_before(self.tab_stops@, start as int) == stop_before(self.tab_stops@, col as int),
            decreases col,
        {
            if col - 1 < self.tab_stops.len() && self.tab_stops[col - 1] {
                return Some(col - 1);
            }
            col = col - 1;
        }
        None
    }

    /// What `tab` does, giving `other`.
    pub open spec fn tab_effect(&self, other: &Self) -> bool {
        &&& other.wf()
        &&& {
            let b = self.active_spec();
            let last = self.cols_spec() - 1;
            let t = tab_target(self.tab_stops_spec(), b.cursor.col as int, last);
            self.changed_active(
                other,
                cursor_moved(b, GridCursor { row: b.cursor.row, col: if t < last { t as u16 } else { last as u16 } }),
                self.seqno_spec(),
            )
        }
    }

    /// Moves the cursor to the next tab stop, or to the last column where there is none.
    pub fn tab(&mut self)
        requires
            old(self).wf(),
        ensures
            old(self).tab_effect(final(self)),
    {
        let last = self.cols - 1;
        let c = self.active_cursor();
        proof {
            lemma_stop_from(self.tab_stops@, c.col + 1);
        }
        let next = match self.next_tab_stop(c.col as usize) {
            Some(col) => col,
            None => last as usize,
        };
        let col = if next < last as usize {
            next as u16
        } else {
            last
        };
        self.move_active_cursor(GridCursor { row: c.row, col });
    }

    /// Moves the cursor `count` tab stops (at least one) forward.
    pub fn move_forward_tabs(&mut self, count: u16)
        requires
            old(self).wf(),
        ensures
            final(self).wf(),
            ({
                let b = old(self).active_spec();
                let last = old(self).cols_spec() - 1;
                let col = tabbed(old(self).tab_stops_spec(), b.cursor.col as int, at_least_one(count) as nat, last);
                old(self).changed_active(final(self), cursor_moved(b, GridCursor { row: b.cursor.row, col: col as u16 }), old(self).seqno_spec())
            }),
    {
        let n: u16 = if count > 1 {
            count
        } else {
            1
        };
        let ghost start = *self;
        let mut k: u16 = 0;
        while k < n
            invariant
                k <= n,
                n == at_least_one(count),
                start.wf(),
                self.wf(),
                k == 0 ==> *self == start,
                k > 0 ==> start.changed_active(
                    self,
                    cursor_moved(
                        start.active_spec(),
                        GridCursor {
                            row: start.active_spec().cursor.row,
                            col: tabbed(start.tab_stops_spec(), start.active_spec().cursor.col as int, k as nat, start.cols_spec() - 1) as u16,
                        },
                    ),
                    start.seqno_spec(),
                ),
                self.active_spec().cursor.col == tabbed(start.tab_stops_spec(), start.active_spec().cursor.col as int, k as nat, start.cols_spec() - 1),
            decreases n - k,
        {
            proof {
                lemma_stop_from(start.tab_stops_spec(), self.active_spec().cursor.col + 1);
            }
            self.tab();
            k = k + 1;
        }
    }

    /// Moves the cursor `count` tab stops (at least one) back, to the first column where there
    /// are no more.
    pub fn move_backward_tabs(&mut self, count: u16)
        requires
            old(self).wf(),
        ensures
            final(self).wf(),
            ({
                let b = old(self).active_spec();
                let col = back_tabbed(old(self).tab_stops_spec(), b.cursor.col as int, at_least_one(count) as nat);
                old(self).changed_active(final(self), cursor_moved(b, GridCursor { row: b.cursor.row, col: col as u16 }), old(self).seqno_spec())
            }),
    {
        let n: u16 = if count > 1 {
            count
        } else {
            1
        };
        let c = self.active_cursor();
        let mut col = c.col as usize;
        let mut k: u16 = 0;
        while k < n
            invariant
                k <= n,
                col == back_tabbed(self.tab_stops@, c.col as int, k as nat),
                col <= c.col,
            decreases n - k,
        {
            proof {
                lemma_stop_before(self.tab_stops@, col as int);
            }
            col = match self.previous_tab_stop(col) {
                Some(p) => p,
                None => 0,
            };
            k = k + 1;
        }
        self.move_active_cursor(GridCursor { row: c.row, col: col as u16 });
    }

    /// Sets a tab stop at the cursor column.
    pub fn set_horizontal_tabstop(&mut self)
        requires
            old(self).wf(),
        ensures
            final(self).wf(),
            ({
                let col = old(self).active_spec().cursor.col as int;
                let stops = old(self).tab_stops_spec();
                old(self).changed_tabs(final(self), if col < stops.len() { stops.update(col, true) } else { stops })
            }),
    {
        let col = self.active_cursor().col as usize;
        if col < self.tab_stops.len() {
            self.tab_stops.set(col, true);
        }
    }

    /// Clears the tab stop at the cursor column.
    pub fn clear_current_tab_stop(&mut self)
        requires
            old(self).wf(),
        ensures
            final(self).wf(),
            ({
                let col = old(self).active_spec().cursor.col as int;
                let stops = old(self).tab_stops_spec();
                old(self).changed_tabs(final(self), if col < stops.len() { stops.update(col, false) } else { stops })
            }),
    {
        let col = self.active_cursor().col as usize;
        if col < self.tab_stops.len() {
            self.tab_stops.set(col, false);
        }
    }

    /// Clears every tab stop.
    pub fn clear_all_tab_stops(&mut self)
        requires
            old(self).wf(),
        ensures
            final(self).wf(),
            old(self).changed_tabs(final(self), Seq::new(old(self).tab_stops_spec().len(), |_i: int| false)),
    {
        let n = self.tab_stops.len();
        let mut i: usize = 0;
        while i < n
            invariant
                n == self.tab_stops@.len(),
                n == old(self).tab_stops@.len(),
                i <= n,
                self.tab_stops@ == Seq::new(i as nat, |_i: int| false) + old(self).tab_stops@.subrange(i as int, n as int),
                *self == (TerminalState { tab_stops: self.tab_stops, ..*old(self) }),
            decreases n - i,
        {
            self.tab_stops.set(i, false);
            i = i + 1;
            proof {
                assert(self.tab_stops@ =~= Seq::new(i as nat, |_i: int| false) + old(self).tab_stops@.subrange(i as int, n as int));
            }
        }
        proof {
            assert(self.tab_stops@ =~= Seq::new(n as nat, |_i: int| false));
        }
    }

    /// Sets a tab stop every `interval` columns (at least one), clearing the others.
    pub fn set_default_tab_stops(&mut self, interval: u16)
        requires
            old(self).wf(),
        ensures
            final(self).wf(),
            ({
                let step = at_least_one(interval);
                old(self).changed_tabs(
                    final(self),
                    Seq::new(old(self).tab_stops_spec().len(), |i: int| i >= step && i % step == 0),
                )
            }),
    {
        let step: usize = if interval > 1 {
            interval as usize
        } else {
            1
        };
        let n = self.tab_stops.len();
        let mut i: usize = 0;
        while i < n
            invariant
                n == self.tab_stops@.len(),
                n == old(self).tab_stops@.len(),
                i <= n,
                step >= 1,
                self.tab_stops@ == Seq::new(i as nat, |j: int| j >= step && j % step as int == 0) + old(self).tab_stops@.subrange(i as int, n as int),
                *self == (TerminalState { tab_stops: self.tab_stops, ..*old(self) }),
            decreases n - i,
        {
            self.tab_stops.set(i, i >= step && i % step == 0);
            i = i + 1;
            proof {
                assert(self.tab_stops@ =~= Seq::new(i as nat, |j: int| j >= step && j % step as int == 0) + old(self).tab_stops@.subrange(i as int, n as int));
            }
        }
        proof {
            assert(self.tab_stops@ =~= Seq::new(n as nat, |j: int| j >= step && j % step as int == 0));
        }
    }

    /// Brings the tab stops to `cols` columns, the new columns with their default stops.
    fn resize_tab_stops(&mut self, cols: u16)
        ensures
            final(self).tab_stops@ == Seq::new(
                cols as nat,
                |i: int| if i < old(self).tab_stops@.len() { old(self).tab_stops@[i] } else { default_tab_stop(i) },
            ),
            *final(self) == (TerminalState { tab_stops: final(self).tab_stops, ..*old(self) }),
    {
        let old_len = self.tab_stops.len();
        let target = cols as usize;
        if old_len >= target {
            self.tab_stops.truncate(target);
            proof {
                assert(self.tab_stops@ =~= Seq::new(
                    cols as nat,
                    |i: int| if i < old(self).tab_stops@.len() { old(self).tab_stops@[i] } else { default_tab_stop(i) },
                ));
            }
            return;
        }
        let mut col = old_len;
        while col < target
            invariant
                old_len <= col <= target,
                old_len == old(self).tab_stops@.len(),
                self.tab_stops@ == Seq::new(
                    col as nat,
                    |i: int| if i < old_len { old(self).tab_stops@[i] } else { default_tab_stop(i) },
                ),
                *self == (TerminalState { tab_stops: self.tab_stops, ..*old(self) }),
            decreases target - col,
        {
            self.tab_stops.push(is_default_tab_stop(col));
            col = col + 1;
            proof {
                assert(self.tab_stops@ =~= Seq::new(
                    col as nat,
                    |i: int| if i < old_len { old(self).tab_stops@[i] } else { default_tab_stop(i) },
                ));
            }
        }
        proof {
            if old_len == 0 {
                assert(old(self).tab_stops@ =~= Seq::<bool>::empty());
            }
        }
    }
}

/// The modes `m` with the flag of private mode `mode` switched on (`enabled`) or off: cursor
/// keys (1), wraparound (7), cursor visibility (25, shown when on), mouse tracking (1000, 1002,
/// 1003), focus reporting (1004), SGR mouse encoding (1006) and bracketed paste (2004); any other
/// mode leaves them as they are.
pub open spec fn mode_set(m: TerminalModes, mode: u16, enabled: bool) -> TerminalModes {
    let mouse = m.mouse;
    if mode == 1 {
        TerminalModes { application_cursor: enabled, ..m }
    } else if mode == 7 {
        TerminalModes { wraparound: enabled, ..m }
    } else if mode == 25 {
        TerminalModes { hide_cursor: !enabled, ..m }
    } else if mode == 1000 {
        TerminalModes { mouse: MouseModes { normal_tracking: enabled, ..mouse }, ..m }
    } else if mode == 1002 {
        TerminalModes { mouse: MouseModes { button_motion: enabled, ..mouse }, ..m }
    } else if mode == 1003 {
        TerminalModes { mouse: MouseModes { any_motion: enabled, ..mouse }, ..m }
    } else if mode == 1004 {
        TerminalModes { focus_reporting: enabled, ..m }
    } else if mode == 1006 {
        TerminalModes { mouse: MouseModes { sgr: enabled, ..mouse }, ..m }
    } else if mode == 2004 {
        TerminalModes { bracketed_paste: enabled, ..m }
    } else {
        m
    }
}

/// The modes `m` with the flag of private mode `mode` switched, as `mode_set` says.
fn apply_mode(m: TerminalModes, mode: u16, enabled: bool) -> (r: TerminalModes)
    ensures
        r == mode_set(m, mode, enabled),
{
    let mut r = m;
    match mode {
        1 => r.application_cursor = enabled,
        7 => r.wraparound = enabled,
        25 => r.hide_cursor = !enabled,
        1000 => r.mouse.normal_tracking = enabled,
        1002 => r.mouse.button_motion = enabled,
        1003 => r.mouse.any_motion = enabled,
        1004 => r.focus_reporting = enabled,
        1006 => r.mouse.sgr = enabled,
        2004 => r.bracketed_paste = enabled,
        _ => {},
    }
    r
}

impl TerminalState {
    /// Switches to the alternate screen, cleared, or back to the primary screen; with
    /// `save_cursor` the primary cursor is saved on the way in and restored on the way out.
    /// Switching to the screen already in use does nothing.
    #[verifier::rlimit(40)]
    fn set_alternate_screen(&mut self, enabled: bool, save_cursor: bool)
        requires
            old(self).wf(),
        ensures
            final(self).wf(),
            old(self).alternate_switched(final(self), enabled, save_cursor),
    {
        if enabled {
            if self.modes.alternate_screen {
                return;
            }
            if save_cursor {
                self.primary.save_cursor();
            }
            let seqno = self.bump_seqno();
            self.alternate.reset(self.rows, self.cols, seqno);
            self.modes.alternate_screen = true;
        } else {
            if !self.modes.alternate_screen {
                return;
            }
            self.modes.alternate_screen = false;
            if save_cursor {
                let cols = self.cols;
                self.primary.restore_cursor(cols);
            }
        }
    }

    /// What switching to the alternate screen (`enabled`) or back does, as
    /// `set_alternate_screen` states it.
    pub open spec fn alternate_switched(&self, other: &Self, enabled: bool, save_cursor: bool) -> bool {
        let p = self.primary_spec();
        let last = (self.cols_spec() - 1) as u16;
        &&& other.rows_spec() == self.rows_spec()
        &&& other.cols_spec() == self.cols_spec()
        &&& other.limit_spec() == self.limit_spec()
        &&& other.tab_stops_spec() == self.tab_stops_spec()
        &&& if enabled == self.modes_spec().alternate_screen {
            &&& other.modes_spec() == self.modes_spec()
            &&& other.primary_spec() == p
            &&& other.alternate_spec() == self.alternate_spec()
            &&& other.seqno_spec() == self.seqno_spec()
        } else if enabled {
            &&& other.modes_spec() == TerminalModes { alternate_screen: true, ..self.modes_spec() }
            &&& other.primary_spec() == if save_cursor {
                ScreenBuffer { saved_cursor: SavedCursor { cursor: p.cursor, attrs: p.attrs }, ..p }
            } else {
                p
            }
            &&& fresh(other.alternate_spec(), self.rows_spec(), self.cols_spec(), self.seqno_spec())
            &&& other.seqno_spec() == self.bumped()
        } else {
            &&& other.modes_spec() == TerminalModes { alternate_screen: false, ..self.modes_spec() }
            &&& other.primary_spec() == if save_cursor {
                ScreenBuffer {
                    cursor: GridCursor {
                        row: p.saved_cursor.cursor.row,
                        col: if p.saved_cursor.cursor.col < last { p.saved_cursor.cursor.col } else { last },
                    },
                    attrs: p.saved_cursor.attrs,
                    pending_wrap: false,
                    ..p
                }
            } else {
                p
            }
            &&& other.alternate_spec() == self.alternate_spec()
            &&& other.seqno_spec() == self.seqno_spec()
        }
    }

    /// What `set_private_mode` does, giving `other`.
    pub open spec fn set_private_mode_effect(&self, other: &Self, mode: u16, enabled: bool) -> bool {
        &&& other.wf()
        &&& if mode == 47 || mode == 1047 {
            self.alternate_switched(other, enabled, false)
        } else if mode == 1049 {
            self.alternate_switched(other, enabled, true)
        } else {
            self.changed_modes(other, mode_set(self.modes_spec(), mode, enabled))
        }
    }

    /// Switches the DEC private mode `mode` on (`enabled`) or off: cursor keys (1),
    /// wraparound (7), cursor visibility (25, shown when on), mouse tracking (1000, 1002,
    /// 1003), focus reporting (1004), SGR mouse encoding (1006), the alternate screen (47 and
    /// 1047, and 1049 saving the cursor) and bracketed paste (2004). Other modes are ignored.
    pub fn set_private_mode(&mut self, mode: u16, enabled: bool)
        requires
            old(self).wf(),
        ensures
            old(self).set_private_mode_effect(final(self), mode, enabled),
    {
        match mode {
            47 | 1047 => self.set_alternate_screen(enabled, false),
            1049 => self.set_alternate_screen(enabled, true),
            _ => self.set_flag_mode(mode, enabled),
        }
    }

    /// Switches a private mode that is a plain flag, as `mode_set` says.
    fn set_flag_mode(&mut self, mode: u16, enabled: bool)
        requires
            old(self).wf(),
        ensures
            final(self).wf(),
            old(self).changed_modes(final(self), mode_set(old(self).modes_spec(), mode, enabled)),
    {
        self.modes = apply_mode(self.modes, mode, enabled);
    }

    /// What `reset` does, giving `other`.
    pub open spec fn reset_effect(&self, other: &Self) -> bool {
        &&& other.wf()
        &&& other.rows_spec() == self.rows_spec()
        &&& other.cols_spec() == self.cols_spec()
        &&& other.limit_spec() == self.limit_spec()
        &&& other.seqno_spec() == self.bumped()
        &&& other.modes_spec() == default_modes()
        &&& other.tab_stops_spec() == Seq::new(self.cols_spec() as nat, |i: int| default_tab_stop(i))
        &&& fresh(other.primary_spec(), self.rows_spec(), self.cols_spec(), self.seqno_spec())
        &&& fresh(other.alternate_spec(), self.rows_spec(), self.cols_spec(), self.seqno_spec())
    }

    /// Resets the terminal: both screens blank, default modes and tab stops; the size and the
    /// scrollback limit stay.
    pub fn reset(&mut self)
        requires
            old(self).wf(),
        ensures
            old(self).reset_effect(final(self)),
    {
        let seqno = self.bump_seqno();
        self.primary.reset(self.rows, self.cols, seqno);
        self.alternate.reset(self.rows, self.cols, seqno);
        self.modes = TerminalModes::default();
        self.tab_stops = default_tab_stops(self.cols);
    }

    /// Prints `c` at the cursor with the display width `unicode-width` gives it, as
    /// `print_measured` does.
    pub fn print(&mut self, c: char)
        requires
            old(self).wf(),
            old(self).room(),
        ensures
            final(self).wf(),
            old(self).changed_active(final(self), final(self).active_spec(), old(self).bumped()),
            old(self).active_spec().printed(
                &final(self).active_spec(),
                c,
                unicode_width_of(c),
                old(self).cols_spec(),
                old(self).seqno_spec(),
                old(self).modes_spec().wraparound,
                old(self).active_limit(),
            ),
    {
        let w = char_width(c);
        self.print_measured(c, w);
    }

    /// Prints `c`, of display width `w` (one column where it has none), at the cursor of the
    /// screen in use, as `ScreenBuffer::printed` says, under the wraparound mode in force.
    pub fn print_measured(&mut self, c: char, w: Option<usize>)
        requires
            old(self).wf(),
            old(self).room(),
            w matches Some(k) ==> k <= 3,
        ensures
            final(self).wf(),
            old(self).changed_active(final(self), final(self).active_spec(), old(self).bumped()),
            old(self).active_spec().printed(
                &final(self).active_spec(),
                c,
                w,
                old(self).cols_spec(),
                old(self).seqno_spec(),
                old(self).modes_spec().wraparound,
                old(self).active_limit(),
            ),
    {
        let cols = self.cols;
        let seqno = self.bump_seqno();
        let wraparound = self.modes.wraparound;
        if self.modes.alternate_screen {
            self.alternate.put_char(c, w, cols, seqno, wraparound, 0);
        } else {
            let limit = self.scrollback_limit;
            self.primary.put_char(c, w, cols, seqno, wraparound, limit);
        }
    }

    /// What `linefeed` does, giving `other`.
    pub open spec fn linefeed_effect(&self, other: &Self) -> bool {
        &&& other.wf()
        &&& self.changed_active(other, other.active_spec(), self.bumped())
        &&& {
            let b = self.active_spec();
            let nb = other.active_spec();
            &&& b.cursor.row == b.scroll_bottom ==> {
                &&& b.scrolled_up_by(
                    &ScreenBuffer { current_input_start: reconciled(nb.rows.rows(), b.current_input_start), pending_wrap: b.pending_wrap, ..nb },
                    self.cols_spec(),
                    1,
                    self.active_limit(),
                    self.seqno_spec(),
                )
                &&& nb.cursor.row == b.scroll_bottom
            }
            &&& b.cursor.row != b.scroll_bottom ==> {
                &&& nb.rows == b.rows
                &&& nb.cursor.row == next_row(b.cursor.row)
                &&& b.kept(&nb)
            }
            &&& nb.cursor.col == b.cursor.col
            &&& !nb.pending_wrap
            &&& nb.current_input_start == Some(nb.rows.rows()[nb.abs_row(nb.cursor.row as int)].id_spec())
        }
    }

    /// Moves the cursor one row down, scrolling the region up where the cursor is on its
    /// bottom row; the current input then starts on the cursor row.
    pub fn linefeed(&mut self)
        requires
            old(self).wf(),
            old(self).room(),
        ensures
            old(self).linefeed_effect(final(self)),
    {
        let seqno = self.bump_seqno();
        let cols = self.cols;
        if self.modes.alternate_screen {
            self.alternate.line_feed(cols, 0, seqno);
        } else {
            let limit = self.scrollback_limit;
            self.primary.line_feed(cols, limit, seqno);
        }
    }

    /// What `reverse_index` does, giving `other`.
    pub open spec fn reverse_index_effect(&self, other: &Self) -> bool {
        &&& other.wf()
        &&& self.changed_active(other, other.active_spec(), self.bumped())
        &&& {
            let b = self.active_spec();
            let nb = other.active_spec();
            &&& b.cursor.row == b.scroll_top ==> b.scrolled_down_by(
                &ScreenBuffer { pending_wrap: b.pending_wrap, ..nb },
                self.cols_spec(),
                1,
                self.active_limit(),
                self.seqno_spec(),
            )
            &&& b.cursor.row != b.scroll_top ==> nb == ScreenBuffer {
                cursor: GridCursor { row: sat_sub_u16(b.cursor.row, 1), col: b.cursor.col },
                pending_wrap: false,
                ..b
            }
            &&& !nb.pending_wrap
        }
    }

    /// Moves the cursor one row up, scrolling the region down where the cursor is on its top
    /// row.
    pub fn reverse_index(&mut self)
        requires
            old(self).wf(),
        ensures
            old(self).reverse_index_effect(final(self)),
    {
        let seqno = self.bump_seqno();
        let cols = self.cols;
        if self.modes.alternate_screen {
            self.alternate.reverse_line_feed(cols, 0, seqno);
        } else {
            let limit = self.scrollback_limit;
            self.primary.reverse_line_feed(cols, limit, seqno);
        }
    }
}

impl TerminalState {
    /// What `erase_in_display` does, giving `other`.
    pub open spec fn erase_in_display_effect(&self, other: &Self, mode: u16) -> bool {
        &&& other.wf()
        &&& self.changed_active(other, other.active_spec(), self.bumped())
        &&& self.active_spec().display_erased(&other.active_spec(), mode, self.cols_spec() as usize, self.seqno_spec())
    }

    /// Erases in the display: from the cursor to the end of the screen, and back to the start
    /// of the current input where the cursor is in the first column (0 and any other mode),
    /// from the start of the screen to the cursor (1), the whole screen (2), or the scrollback
    /// (3); as `ScreenBuffer::display_erased` says.
    pub fn erase_in_display(&mut self, mode: u16)
        requires
            old(self).wf(),
        ensures
            old(self).erase_in_display_effect(final(self), mode),
    {
        let width = self.cols as usize;
        let seqno = self.bump_seqno();
        if self.modes.alternate_screen {
            self.alternate.erase_display(mode, width, seqno);
        } else {
            self.primary.erase_display(mode, width, seqno);
        }
    }

    /// What `erase_in_line` does, giving `other`.
    pub open spec fn erase_in_line_effect(&self, other: &Self, mode: u16) -> bool {
        &&& other.wf()
        &&& self.changed_active(other, other.active_spec(), self.bumped())
        &&& {
            let b = self.active_spec();
            let width = self.cols_spec() as int;
            let a = b.abs_row(b.cursor.row as int);
            let (start, end) = if mode == 1 {
                (0, b.cursor.col + 1)
            } else if mode == 2 {
                (0, width)
            } else {
                (b.cursor.col as int, width)
            };
            b.with_line(&other.active_spec(), a, cleared_line(b.lines()[a], start, end, width, self.seqno_spec()))
        }
    }

    /// Erases in the cursor row: up to and including the cursor (1), the whole row (2), or from
    /// the cursor on (0 and any other mode).
    pub fn erase_in_line(&mut self, mode: u16)
        requires
            old(self).wf(),
        ensures
            old(self).erase_in_line_effect(final(self), mode),
    {
        let width = self.cols as usize;
        let seqno = self.bump_seqno();
        if self.modes.alternate_screen {
            let absolute = self.alternate.current_absolute_row();
            let col = self.alternate.cursor.col as usize;
            let (start, end) = if mode == 1 {
                (0, col + 1)
            } else if mode == 2 {
                (0, width)
            } else {
                (col, width)
            };
            self.alternate.clear_row_range(absolute, start, end, width, seqno);
        } else {
            let absolute = self.primary.current_absolute_row();
            let col = self.primary.cursor.col as usize;
            let (start, end) = if mode == 1 {
                (0, col + 1)
            } else if mode == 2 {
                (0, width)
            } else {
                (col, width)
            };
            self.primary.clear_row_range(absolute, start, end, width, seqno);
        }
    }

    /// What `insert_blank_chars` does, giving `other`.
    pub open spec fn insert_blank_chars_effect(&self, other: &Self, count: u16) -> bool {
        &&& other.wf()
        &&& self.changed_active(other, other.active_spec(), self.bumped())
        &&& self.active_spec().blanks_inserted(&other.active_spec(), self.cols_spec(), count, self.seqno_spec())
    }

    /// Inserts `count` blank cells (at least one) at the cursor, as
    /// `ScreenBuffer::blanks_inserted` says.
    pub fn insert_blank_chars(&mut self, count: u16)
        requires
            old(self).wf(),
        ensures
            old(self).insert_blank_chars_effect(final(self), count),
    {
        let cols = self.cols;
        let seqno = self.bump_seqno();
        if self.modes.alternate_screen {
            self.alternate.insert_blank_chars(cols, count, seqno);
        } else {
            self.primary.insert_blank_chars(cols, count, seqno);
        }
    }

    /// What `delete_chars` does, giving `other`.
    pub open spec fn delete_chars_effect(&self, other: &Self, count: u16) -> bool {
        &&& other.wf()
        &&& self.changed_active(other, other.active_spec(), self.bumped())
        &&& self.active_spec().chars_deleted(&other.active_spec(), self.cols_spec(), count, self.seqno_spec())
    }

    /// Deletes `count` cells (at least one) at the cursor, as `ScreenBuffer::chars_deleted`
    /// says.
    pub fn delete_chars(&mut self, count: u16)
        requires
            old(self).wf(),
        ensures
            old(self).delete_chars_effect(final(self), count),
    {
        let cols = self.cols;
        let seqno = self.bump_seqno();
        if self.modes.alternate_screen {
            self.alternate.delete_chars(cols, count, seqno);
        } else {
            self.primary.delete_chars(cols, count, seqno);
        }
    }

    /// What `erase_chars` does, giving `other`.
    pub open spec fn erase_chars_effect(&self, other: &Self, count: u16) -> bool {
        &&& other.wf()
        &&& self.changed_active(other, other.active_spec(), self.bumped())
        &&& self.active_spec().chars_erased(&other.active_spec(), self.cols_spec(), count, self.seqno_spec())
    }

    /// Blanks `count` cells (at least one) from the cursor on, as `ScreenBuffer::chars_erased`
    /// says.
    pub fn erase_chars(&mut self, count: u16)
        requires
            old(self).wf(),
        ensures
            old(self).erase_chars_effect(final(self), count),
    {
        let cols = self.cols;
        let seqno = self.bump_seqno();
        if self.modes.alternate_screen {
            self.alternate.erase_chars(cols, count, seqno);
        } else {
            self.primary.erase_chars(cols, count, seqno);
        }
    }

    /// What `insert_lines` does, giving `other`.
    pub open spec fn insert_lines_effect(&self, other: &Self, count: u16) -> bool {
        &&& other.wf()
        &&& self.changed_active(other, other.active_spec(), self.bumped())
        &&& self.active_spec().lines_inserted(&other.active_spec(), count, self.cols_spec(), self.seqno_spec())
    }

    /// Inserts `count` blank lines (at least one) at the cursor row within the scroll region,
    /// as `ScreenBuffer::lines_inserted` says.
    pub fn insert_lines(&mut self, count: u16)
        requires
            old(self).wf(),
        ensures
            old(self).insert_lines_effect(final(self), count),
    {
        let cols = self.cols;
        let seqno = self.bump_seqno();
        if self.modes.alternate_screen {
            self.alternate.insert_lines(count, cols, seqno);
        } else {
            self.primary.insert_lines(count, cols, seqno);
        }
    }

    /// What `delete_lines` does, giving `other`.
    pub open spec fn delete_lines_effect(&self, other: &Self, count: u16) -> bool {
        &&& other.wf()
        &&& self.changed_active(other, other.active_spec(), self.bumped())
        &&& self.active_spec().lines_deleted(&other.active_spec(), count, self.cols_spec(), self.seqno_spec())
    }

    /// Deletes `count` lines (at least one) at the cursor row within the scroll region, as
    /// `ScreenBuffer::lines_deleted` says.
    pub fn delete_lines(&mut self, count: u16)
        requires
            old(self).wf(),
            old(self).room(),
        ensures
            old(self).delete_lines_effect(final(self), count),
    {
        let cols = self.cols;
        let seqno = self.bump_seqno();
        if self.modes.alternate_screen {
            self.alternate.delete_lines(count, cols, seqno);
        } else {
            self.primary.delete_lines(count, cols, seqno);
        }
    }

    /// What `scroll_up` does, giving `other`.
    pub open spec fn scroll_up_effect(&self, other: &Self, count: u16) -> bool {
        &&& other.wf()
        &&& self.changed_active(other, other.active_spec(), self.bumped())
        &&& self.active_spec().scrolled_up_by(&other.active_spec(), self.cols_spec(), count, self.active_limit(), self.seqno_spec())
    }

    /// Scrolls the scroll region up `count` lines (at least one), as
    /// `ScreenBuffer::scrolled_up_by` says.
    pub fn scroll_up(&mut self, count: u16)
        requires
            old(self).wf(),
            old(self).room(),
        ensures
            old(self).scroll_up_effect(final(self), count),
    {
        let cols = self.cols;
        let seqno = self.bump_seqno();
        if self.modes.alternate_screen {
            self.alternate.scroll_up_region(cols, count, 0, seqno);
        } else {
            let limit = self.scrollback_limit;
            self.primary.scroll_up_region(cols, count, limit, seqno);
        }
    }

    /// What `scroll_down` does, giving `other`.
    pub open spec fn scroll_down_effect(&self, other: &Self, count: u16) -> bool {
        &&& other.wf()
        &&& self.changed_active(other, other.active_spec(), self.bumped())
        &&& self.active_spec().scrolled_down_by(&other.active_spec(), self.cols_spec(), count, self.active_limit(), self.seqno_spec())
    }

    /// Scrolls the scroll region down `count` lines (at least one), as
    /// `ScreenBuffer::scrolled_down_by` says.
    pub fn scroll_down(&mut self, count: u16)
        requires
            old(self).wf(),
        ensures
            old(self).scroll_down_effect(final(self), count),
    {
        let cols = self.cols;
        let seqno = self.bump_seqno();
        if self.modes.alternate_screen {
            self.alternate.scroll_down_region(cols, count, 0, seqno);
        } else {
            let limit = self.scrollback_limit;
            self.primary.scroll_down_region(cols, count, limit, seqno);
        }
    }
}

impl TerminalState {
    /// `other` holds the same as `self`.
    pub open spec fn same_as(&self, other: &Self) -> bool {
        &&& other.rows_spec() == self.rows_spec()
        &&& other.cols_spec() == self.cols_spec()
        &&& other.limit_spec() == self.limit_spec()
        &&& other.modes_spec() == self.modes_spec()
        &&& other.tab_stops_spec() == self.tab_stops_spec()
        &&& other.seqno_spec() == self.seqno_spec()
        &&& other.primary_spec() == self.primary_spec()
        &&& other.alternate_spec() == self.alternate_spec()
    }

    /// What `resize` to `rows` rows and `cols` columns does, giving `other`.
    pub open spec fn resize_effect(&self, other: &Self, rows: u16, cols: u16) -> bool {
        &&& other.wf()
        &&& {
            let r = if rows > 1 { rows } else { 1 };
            let c = if cols > 1 { cols } else { 1 };
            (r == self.rows_spec() && c == self.cols_spec()) ==> self.same_as(other)
        }
        &&& self.primary_spec().cursor.row < self.rows_spec() ==> other.primary_spec().cursor.row < other.rows_spec()
        &&& self.alternate_spec().cursor.row < self.rows_spec() ==> other.alternate_spec().cursor.row < other.rows_spec()
        &&& self.primary_spec().cursor.col < self.cols_spec() ==> other.primary_spec().cursor.col < other.cols_spec()
        &&& self.alternate_spec().cursor.col < self.cols_spec() ==> other.alternate_spec().cursor.col < other.cols_spec()
        &&& {
            let r = if rows > 1 { rows } else { 1 };
            let c = if cols > 1 { cols } else { 1 };
            let np = other.primary_spec();
            !(r == self.rows_spec() && c == self.cols_spec()) ==> {
                &&& other.rows_spec() == r
                &&& other.cols_spec() == c
                &&& other.limit_spec() == self.limit_spec()
                &&& other.modes_spec() == self.modes_spec()
                &&& other.seqno_spec() == self.bumped()
                &&& other.tab_stops_spec() == Seq::new(
                    c as nat,
                    |i: int| if i < self.cols_spec() { self.tab_stops_spec()[i] } else { default_tab_stop(i) },
                )
                &&& !np.pending_wrap
                &&& !other.alternate_spec().pending_wrap
                &&& r != self.rows_spec() ==> np.scroll_top == 0 && np.scroll_bottom == r - 1
                &&& np.len() <= if np.visible_rows + self.limit_spec() < np.len() { np.len() } else { np.visible_rows + self.limit_spec() }
                &&& np.len() >= r
            }
        }
        &&& {
            let r = if rows > 1 { rows } else { 1 };
            let c = if cols > 1 { cols } else { 1 };
            let p = self.primary_spec();
            let np = other.primary_spec();
            let live = p.live_start_spec();
            let m = (live + p.cursor.row, p.cursor.col as int, live + p.saved_cursor.cursor.row, p.saved_cursor.cursor.col as int);
            let out = rewrap_from(p.lines(), 0, m, c as int, self.seqno_spec());
            let k = if np.len() < out.len() { np.len() } else { out.len() as int };
            let a = self.alternate_spec();
            (r == self.rows_spec() && c != self.cols_spec()) ==> {
                &&& np.lines().subrange(np.len() - k, np.len() as int) == out.subrange(out.len() - k, out.len() as int)
                &&& np.cursor_placed(p.lines(), m, c as int, out.len() as int)
                &&& p.rewrapped_and_trimmed(&np, self.cols_spec(), c, self.limit_spec(), self.seqno_spec())
                &&& a.width_changed(&other.alternate_spec(), self.cols_spec(), c, self.seqno_spec(), false)
                &&& other.alternate_spec().cursor.row == a.cursor.row
                &&& other.alternate_spec().cursor.col == within_width(a.cursor.col as int, c as int)
                &&& other.alternate_spec().len() == a.len()
                &&& forall|i: int| 0 <= i < a.len() ==> #[trigger] other.alternate_spec().lines()[i]
                    == refit_line(a.lines()[i], self.cols_spec() as int, c as int, self.seqno_spec())
            }
        }
        &&& {
            let r = if rows > 1 { rows } else { 1 };
            let c = if cols > 1 { cols } else { 1 };
            let p = self.primary_spec();
            let a = self.alternate_spec();
            (r != self.rows_spec() && c == self.cols_spec()) ==> {
                &&& p.height_changed_trimmed(other.primary_spec().lines(), r, c, self.limit_spec(), self.seqno_spec())
                &&& a.height_changed(other.alternate_spec().lines(), r, c, 0, self.seqno_spec())
                &&& !(r < p.visible_rows && p.cursor.row >= r) ==> other.primary_spec().current_input_start
                    == reconciled(other.primary_spec().rows.rows(), p.current_input_start)
                &&& !(r < a.visible_rows && a.cursor.row >= r) ==> other.alternate_spec().current_input_start
                    == reconciled(other.alternate_spec().rows.rows(), a.current_input_start)
                &&& p.heightened_view(&other.primary_spec(), r, c, self.limit_spec(), self.seqno_spec())
            }
        }
        &&& {
            let r = if rows > 1 { rows } else { 1 };
            let c = if cols > 1 { cols } else { 1 };
            (r != self.rows_spec() && c != self.cols_spec()) ==> {
                &&& self.primary_spec().rewrapped_then_heightened(
                    other.primary_spec().lines(),
                    self.cols_spec(),
                    r,
                    c,
                    self.limit_spec(),
                    self.seqno_spec(),
                )
                &&& self.alternate_spec().refitted_then_heightened(
                    other.alternate_spec().lines(),
                    self.cols_spec(),
                    r,
                    c,
                    self.seqno_spec(),
                )
                &&& self.primary_spec().rewrapped_heightened_view(
                    &other.primary_spec(),
                    self.cols_spec(),
                    r,
                    c,
                    self.limit_spec(),
                    self.seqno_spec(),
                )
            }
        }
    }

    /// Resizes the terminal to `rows` rows and `cols` columns (each at least one). A new width
    /// rewraps the logical lines of the primary screen, keeping the cursor on its text, and cuts
    /// or pads the rows of the alternate screen; a new height shows more or fewer rows, taking
    /// them from or giving them to the scrollback. The scroll regions become the whole screen,
    /// new columns get their default tab stops, and the scrollback is trimmed to its limit.
    pub fn resize(&mut self, rows: u16, cols: u16)
        requires
            old(self).wf(),
            old(self).resize_room(),
        ensures
            old(self).resize_effect(final(self), rows, cols),
    {
        let ghost r0: u16 = if rows > 1 { rows } else { 1 };
        let ghost c0: u16 = if cols > 1 { cols } else { 1 };
        let rows = if rows > 1 {
            rows
        } else {
            1
        };
        let cols = if cols > 1 {
            cols
        } else {
            1
        };
        if rows == self.rows && cols == self.cols {
            return;
        }
        if rows == self.rows {
            self.resize_columns_only(cols);
        } else {
            self.resize_rows(rows, cols);
            proof {
                if cols == old(self).cols {
                    let h = choose|h: Seq<super::screen::LineView>| old(self).primary.height_changed(h, rows, cols, old(self).scrollback_limit, old(self).next_seqno)
                        && self.primary.lines() == #[trigger] trimmed_lines(h, rows as int, old(self).scrollback_limit as int);
                    assert(rows == r0 && cols == c0);
                    assert(old(self).primary_spec().height_changed(h, r0, c0, old(self).limit_spec(), old(self).seqno_spec())
                        && self.primary_spec().lines() == trimmed_lines(h, r0 as int, old(self).limit_spec() as int));
                    assert(old(self).primary_spec().height_changed_trimmed(self.primary_spec().lines(), r0, c0, old(self).limit_spec(), old(self).seqno_spec()));
                }
            }
        }
    }

    /// The state after a change of width alone, to `cols` columns.
    #[verifier::rlimit(40)]
    fn resize_columns_only(&mut self, cols: u16)
        requires
            old(self).wf(),
            old(self).resize_room(),
            cols >= 1,
            cols != old(self).cols,
        ensures
            final(self).wf(),
            final(self).rows == old(self).rows,
            final(self).cols == cols,
            final(self).scrollback_limit == old(self).scrollback_limit,
            final(self).modes == old(self).modes,
            final(self).next_seqno == sat_add_u64(old(self).next_seqno, 1),
            final(self).tab_stops@ == Seq::new(
                cols as nat,
                |i: int| if i < old(self).cols { old(self).tab_stops@[i] } else { default_tab_stop(i) },
            ),
            !final(self).primary.pending_wrap,
            !final(self).alternate.pending_wrap,
            final(self).primary.len() <= if final(self).primary.visible_rows + old(self).scrollback_limit < final(self).primary.len() {
                final(self).primary.len()
            } else {
                final(self).primary.visible_rows + old(self).scrollback_limit
            },
            final(self).primary.len() >= old(self).rows,
            ({
                let p = old(self).primary;
                let np = final(self).primary;
                let live = p.live_start_spec();
                let m = (live + p.cursor.row, p.cursor.col as int, live + p.saved_cursor.cursor.row, p.saved_cursor.cursor.col as int);
                let out = rewrap_from(p.lines(), 0, m, cols as int, old(self).next_seqno);
                let k = if np.len() < out.len() { np.len() } else { out.len() as int };
                &&& np.lines().subrange(np.len() - k, np.len() as int) == out.subrange(out.len() - k, out.len() as int)
                &&& np.cursor_placed(p.lines(), m, cols as int, out.len() as int)
            }),
            old(self).primary.rewrapped_and_trimmed(&final(self).primary, old(self).cols, cols, old(self).scrollback_limit, old(self).next_seqno),
            old(self).alternate.width_changed(&final(self).alternate, old(self).cols, cols, old(self).next_seqno, false),
            final(self).alternate.cursor.row == old(self).alternate.cursor.row,
            final(self).alternate.cursor.col == within_width(old(self).alternate.cursor.col as int, cols as int),
            final(self).alternate.len() == old(self).alternate.len(),
            forall|i: int| 0 <= i < old(self).alternate.len() ==> #[trigger] final(self).alternate.lines()[i]
                == refit_line(old(self).alternate.lines()[i], old(self).cols as int, cols as int, old(self).next_seqno),
    {
        let seqno = self.next_seqno;
        let limit = self.scrollback_limit;
        let rows = self.rows;
        let old_cols = self.cols;
        resize_columns(&mut self.primary, &mut self.alternate, rows, old_cols, cols, limit, seqno);
        self.next_seqno = seqno.saturating_add(1);
        self.cols = cols;
        self.resize_tab_stops(cols);
        proof {
            assert(self.tab_stops@ =~= Seq::new(
                cols as nat,
                |i: int| if i < old(self).cols { old(self).tab_stops@[i] } else { default_tab_stop(i) },
            ));
        }
    }

    /// The state after a change of height, to `rows` rows, and of width, to `cols` columns.
    #[verifier::rlimit(40)]
    fn resize_rows(&mut self, rows: u16, cols: u16)
        requires
            old(self).wf(),
            old(self).resize_room(),
            rows >= 1,
            cols >= 1,
            rows != old(self).rows,
        ensures
            final(self).wf(),
            final(self).rows == rows,
            final(self).cols == cols,
            final(self).scrollback_limit == old(self).scrollback_limit,
            final(self).modes == old(self).modes,
            final(self).next_seqno == sat_add_u64(old(self).next_seqno, 1),
            final(self).tab_stops@ == Seq::new(
                cols as nat,
                |i: int| if i < old(self).cols { old(self).tab_stops@[i] } else { default_tab_stop(i) },
            ),
            !final(self).primary.pending_wrap,
            !final(self).alternate.pending_wrap,
            final(self).primary.scroll_top == 0,
            final(self).primary.scroll_bottom == rows - 1,
            old(self).primary.cursor.row < old(self).rows ==> final(self).primary.cursor.row < rows,
            old(self).alternate.cursor.row < old(self).rows ==> final(self).alternate.cursor.row < rows,
            final(self).primary.cursor.col < cols,
            final(self).alternate.cursor.col < cols,
            final(self).primary.len() <= if final(self).primary.visible_rows + old(self).scrollback_limit < final(self).primary.len() {
                final(self).primary.len()
            } else {
                final(self).primary.visible_rows + old(self).scrollback_limit
            },
            final(self).primary.len() >= rows,
            cols == old(self).cols ==> exists|h: Seq<super::screen::LineView>| old(self).primary.height_changed(h, rows, cols, old(self).scrollback_limit, old(self).next_seqno)
                && final(self).primary.lines() == #[trigger] trimmed_lines(h, rows as int, old(self).scrollback_limit as int),
            cols == old(self).cols ==> old(self).alternate.height_changed(final(self).alternate.lines(), rows, cols, 0, old(self).next_seqno),
            cols == old(self).cols && !(rows < old(self).primary.visible_rows && old(self).primary.cursor.row >= rows)
                ==> final(self).primary.current_input_start == reconciled(final(self).primary.rows.rows(), old(self).primary.current_input_start),
            cols == old(self).cols && !(rows < old(self).alternate.visible_rows && old(self).alternate.cursor.row >= rows)
                ==> final(self).alternate.current_input_start == reconciled(final(self).alternate.rows.rows(), old(self).alternate.current_input_start),
            cols != old(self).cols ==> old(self).primary.rewrapped_then_heightened(
                final(self).primary.lines(),
                old(self).cols,
                rows,
                cols,
                old(self).scrollback_limit,
                old(self).next_seqno,
            ),
            cols != old(self).cols ==> old(self).alternate.refitted_then_heightened(
                final(self).alternate.lines(),
                old(self).cols,
                rows,
                cols,
                old(self).next_seqno,
            ),
            cols == old(self).cols ==> old(self).primary.heightened_view(&final(self).primary, rows, cols, old(self).scrollback_limit, old(self).next_seqno),
            cols != old(self).cols ==> old(self).primary.rewrapped_heightened_view(
                &final(self).primary,
                old(self).cols,
                rows,
                cols,
                old(self).scrollback_limit,
                old(self).next_seqno,
            ),
    {
        let seqno = self.next_seqno;
        let limit = self.scrollback_limit;
        let old_cols = self.cols;
        resize_both(&mut self.primary, &mut self.alternate, old_cols, rows, cols, limit, seqno);
        self.next_seqno = seqno.saturating_add(1);
        self.rows = rows;
        self.cols = cols;
        self.resize_tab_stops(cols);
        proof {
            assert(self.tab_stops@ =~= Seq::new(
                cols as nat,
                |i: int| if i < old(self).cols { old(self).tab_stops@[i] } else { default_tab_stop(i) },
            ));
        }
    }

}

/// The screens after a change of width alone, from `old_cols` to `cols` columns, on a screen of
/// `rows` rows.
fn resize_columns(primary: &mut ScreenBuffer, alternate: &mut ScreenBuffer, rows: u16, old_cols: u16, cols: u16, limit: usize, seqno: u64)
    requires
        rows >= 1,
        old_cols >= 1,
        old(primary).wf(),
        old(alternate).wf(),
        old(primary).visible_rows == rows,
        old(alternate).visible_rows == rows,
        old(primary).room(0x40000),
        old(alternate).room(0x40000),
        old(primary).stable_row_offset + rewrap_room(old(primary).lines()) + 0x40000 <= ROW_LIMIT,
        old(alternate).stable_row_offset + rewrap_room(old(alternate).lines()) + 0x40000 <= ROW_LIMIT,
        lines_bounded(old(primary).lines()),
        lines_bounded(old(alternate).lines()),
        cols >= 1,
        cols != old_cols,
    ensures
        final(primary).wf(),
        final(alternate).wf(),
        final(primary).visible_rows == rows,
        final(alternate).visible_rows == rows,
        final(primary).cursor.col < cols,
        final(alternate).cursor.col < cols,
        !final(primary).pending_wrap,
        !final(alternate).pending_wrap,
        final(primary).len() >= rows,
        final(primary).len() <= if final(primary).visible_rows + limit < final(primary).len() {
            final(primary).len()
        } else {
            final(primary).visible_rows + limit
        },
        ({
            let p = *old(primary);
            let np = *final(primary);
            let live = p.live_start_spec();
            let m = (live + p.cursor.row, p.cursor.col as int, live + p.saved_cursor.cursor.row, p.saved_cursor.cursor.col as int);
            let out = rewrap_from(p.lines(), 0, m, cols as int, seqno);
            let k = if np.len() < out.len() { np.len() } else { out.len() as int };
            &&& np.lines().subrange(np.len() - k, np.len() as int) == out.subrange(out.len() - k, out.len() as int)
            &&& np.cursor_placed(p.lines(), m, cols as int, out.len() as int)
        }),
        old(primary).rewrapped_and_trimmed(final(primary), old_cols, cols, limit, seqno),
        old(alternate).width_changed(final(alternate), old_cols, cols, seqno, false),
        final(alternate).cursor.row == old(alternate).cursor.row,
        final(alternate).cursor.col == within_width(old(alternate).cursor.col as int, cols as int),
        final(alternate).len() == old(alternate).len(),
        forall|i: int| 0 <= i < old(alternate).len() ==> #[trigger] final(alternate).lines()[i]
            == refit_line(old(alternate).lines()[i], old_cols as int, cols as int, seqno),
{
    primary.resize_width(old_cols, cols, seqno, true);
    alternate.resize_width(old_cols, cols, seqno, false);
    primary.pending_wrap = false;
    alternate.pending_wrap = false;
    let ghost mid = *primary;
    primary.trim_scrollback(limit);
    proof {
        assert(old(primary).width_changed(&mid, old_cols, cols, seqno, true));
    }
}

/// The screens after a change of height, to `rows` rows, and of width, from `old_cols` to
/// `cols` columns where that differs.
fn resize_both(primary: &mut ScreenBuffer, alternate: &mut ScreenBuffer, old_cols: u16, rows: u16, cols: u16, limit: usize, seqno: u64)
    requires
        old_cols >= 1,
        old(primary).wf(),
        old(alternate).wf(),
        old(primary).visible_rows == old(alternate).visible_rows,
        old(primary).cursor.col < old_cols,
        old(alternate).cursor.col < old_cols,
        old(primary).room(0x40000),
        old(alternate).room(0x40000),
        old(primary).stable_row_offset + rewrap_room(old(primary).lines()) + 0x40000 <= ROW_LIMIT,
        old(alternate).stable_row_offset + rewrap_room(old(alternate).lines()) + 0x40000 <= ROW_LIMIT,
        lines_bounded(old(primary).lines()),
        lines_bounded(old(alternate).lines()),
        rows >= 1,
        cols >= 1,
    ensures
        final(primary).wf(),
        final(alternate).wf(),
        final(primary).visible_rows == rows,
        final(alternate).visible_rows == rows,
        final(primary).cursor.col < cols,
        final(alternate).cursor.col < cols,
        old(primary).cursor.row < old(primary).visible_rows ==> final(primary).cursor.row < rows,
        old(alternate).cursor.row < old(alternate).visible_rows ==> final(alternate).cursor.row < rows,
        !final(primary).pending_wrap,
        !final(alternate).pending_wrap,
        final(primary).scroll_top == 0,
        final(primary).scroll_bottom == rows - 1,
        final(primary).len() >= rows,
        final(primary).len() <= if final(primary).visible_rows + limit < final(primary).len() {
            final(primary).len()
        } else {
            final(primary).visible_rows + limit
        },
        cols == old_cols ==> exists|h: Seq<super::screen::LineView>| old(primary).height_changed(h, rows, cols, limit, seqno)
            && final(primary).lines() == #[trigger] trimmed_lines(h, rows as int, limit as int),
        cols == old_cols ==> old(alternate).height_changed(final(alternate).lines(), rows, cols, 0, seqno),
        cols == old_cols && !(rows < old(primary).visible_rows && old(primary).cursor.row >= rows) ==> final(primary).current_input_start
            == reconciled(final(primary).rows.rows(), old(primary).current_input_start),
        cols == old_cols && !(rows < old(alternate).visible_rows && old(alternate).cursor.row >= rows) ==> final(alternate).current_input_start
            == reconciled(final(alternate).rows.rows(), old(alternate).current_input_start),
        cols != old_cols ==> old(primary).rewrapped_then_heightened(final(primary).lines(), old_cols, rows, cols, limit, seqno),
        cols != old_cols ==> old(alternate).refitted_then_heightened(final(alternate).lines(), old_cols, rows, cols, seqno),
        cols == old_cols ==> old(primary).heightened_view(final(primary), rows, cols, limit, seqno),
        cols != old_cols ==> old(primary).rewrapped_heightened_view(final(primary), old_cols, rows, cols, limit, seqno),
{
    if cols != old_cols {
        primary.resize_width(old_cols, cols, seqno, true);
        alternate.resize_width(old_cols, cols, seqno, false);
    }
    let ghost mid_p = *primary;
    let ghost mid_a = *alternate;
    primary.resize_height(rows, cols, limit, seqno);
    alternate.resize_height(rows, cols, 0, seqno);
    let ghost heightened = primary.lines();
    let ghost alt_rows = alternate.rows;
    primary.pending_wrap = false;
    alternate.pending_wrap = false;
    let ghost before_trim = *primary;
    primary.trim_scrollback(limit);
    proof {
        assert(alternate.rows == alt_rows);
        assert(primary.lines() =~= trimmed_lines(heightened, rows as int, limit as int));
        before_trim.rows.lemma_wf();
        lemma_reconciled_tail(before_trim.rows.rows(), before_trim.len() - primary.len(), old(primary).current_input_start);
        if before_trim.len() <= before_trim.visible_rows + limit {
            assert(before_trim.rows.rows().subrange(0, before_trim.len() as int) =~= before_trim.rows.rows());
        }
        if cols != old_cols {
            assert(old(primary).width_changed(&mid_p, old_cols, cols, seqno, true));
            assert(mid_p.height_changed(heightened, rows, cols, limit, seqno));
            assert(old(alternate).width_changed(&mid_a, old_cols, cols, seqno, false));
            assert(mid_a.height_changed(alternate.lines(), rows, cols, 0, seqno));
        }
        assert(mid_p.height_view(&before_trim, rows, cols, limit, seqno));
        assert(mid_p.heightened_view(primary, rows, cols, limit, seqno));
        if cols != old_cols {
            assert(old(primary).width_changed(&mid_p, old_cols, cols, seqno, true));
        }
    }
}

/// Whether `b` leaves room for the stable indexes of as many rows as rewrapping it can give.
fn rewrap_fits(b: &ScreenBuffer) -> (r: bool)
    requires
        b.wf(),
    ensures
        r == (b.stable_row_offset + rewrap_room(b.lines()) + 0x40000 <= ROW_LIMIT),
{
    let n = b.rows.len();
    let ghost ls = b.lines();
    proof {
        b.rows.lemma_wf();
    }
    if b.stable_row_offset > ROW_LIMIT || n > ROW_LIMIT {
        proof {
            super::resize::lemma_occ_sum_nonneg(ls, 0, n as int);
        }
        return false;
    }
    let budget = ROW_LIMIT - b.stable_row_offset;
    if n > budget {
        proof {
            super::resize::lemma_occ_sum_nonneg(ls, 0, n as int);
        }
        return false;
    }
    let mut total: usize = n;
    let mut i: usize = 0;
    while i < n
        invariant
            b.wf(),
            ls == b.lines(),
            n == b.len(),
            i <= n,
            budget == ROW_LIMIT - b.stable_row_offset,
            total == occ_sum(ls, 0, i as int) + n,
            total <= budget,
        decreases n - i,
    {
        proof {
            b.rows.lemma_wf();
            assert(ls[i as int] == b.rows.rows()[i as int].line_view());
        }
        let occ = b.rows.get(i).unwrap().line().occ();
        if occ > budget - total {
            proof {
                super::resize::lemma_occ_sum_split(ls, 0, i as int + 1, n as int);
                super::resize::lemma_occ_sum_nonneg(ls, i as int + 1, n as int);
            }
            return false;
        }
        total = total + occ;
        i = i + 1;
    }
    budget - total >= 2 * 0xffff + 0x40000
}

/// Whether every row of `b` has at most `0xffff` cells and an occupied width within them.
fn rows_bounded(b: &ScreenBuffer) -> (r: bool)
    requires
        b.wf(),
    ensures
        r == lines_bounded(b.lines()),
{
    let n = b.rows.len();
    let mut i: usize = 0;
    while i < n
        invariant
            b.wf(),
            n == b.len(),
            i <= n,
            forall|j: int| 0 <= j < i ==> (#[trigger] b.lines()[j]).0.len() <= 0xffff && b.lines()[j].1 <= b.lines()[j].0.len(),
        decreases n - i,
    {
        proof {
            b.rows.lemma_wf();
        }
        let line = b.rows.get(i).unwrap().line();
        let cells = line.cells_ref();
        proof {
            assert(super::line::views(cells@).len() == cells@.len());
        }
        proof {
            assert(b.lines()[i as int] == line@);
        }
        if cells.len() > 0xffff || line.occ() > cells.len() {
            assert(!((b.lines()[i as int]).0.len() <= 0xffff && b.lines()[i as int].1 <= b.lines()[i as int].0.len()));
            return false;
        }
        i = i + 1;
    }
    true
}

/// Whether `b` leaves room for `extra` more rows of stable indexes, and for `per_row` times its
/// rows.
fn buffer_room(b: &ScreenBuffer, per_row: usize, extra: usize) -> (r: bool)
    requires
        b.wf(),
        1 <= per_row <= 0x10000,
        extra <= 0x40000,
    ensures
        r == (b.stable_row_offset + b.len() * per_row + extra <= ROW_LIMIT),
{
    let used = b.stable_row_offset;
    let len = b.rows.len();
    if used > ROW_LIMIT - extra {
        return false;
    }
    let left = ROW_LIMIT - extra - used;
    let r = len <= left / per_row;
    proof {
        assert((len <= left / per_row) == (len * per_row <= left)) by (nonlinear_arith)
            requires
                per_row > 0,
        {
            if len <= left / per_row {
                assert(len * per_row <= (left / per_row) * per_row);
            } else {
                assert(len >= left / per_row + 1);
                assert(len * per_row >= (left / per_row + 1) * per_row);
            }
        }
    }
    r
}

impl TerminalState {
    /// Whether there is room for the row counting of one more operation, as `room` says.
    pub fn has_room(&self) -> (r: bool)
        requires
            self.wf(),
        ensures
            r == self.room(),
    {
        buffer_room(&self.primary, 1, 0x40000) && buffer_room(&self.alternate, 1, 0x40000)
    }

    /// Whether there is room for the row counting of a resize, as `resize_room` says.
    pub fn has_resize_room(&self) -> (r: bool)
        requires
            self.wf(),
        ensures
            r == self.resize_room(),
    {
        self.has_room() && rewrap_fits(&self.primary) && rewrap_fits(&self.alternate)
            && rows_bounded(&self.primary) && rows_bounded(&self.alternate)
    }
}

} // verus!
