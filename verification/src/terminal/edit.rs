//! Writing characters into a screen buffer: printing, combining marks, wrapping, and inserting,
//! deleting and erasing cells on the cursor row.

use super::cells::{blank_view, continuation_view, CellView, TerminalCell};
use super::line::{
    clear_overlap, clear_overlap_view, combining_target, find_combining_target, normalize_cells,
    normalize_view, resize_view, views,
};
use super::screen::{
    clear_cols, cleared_line, first_with_id, is_blank_line, lemma_cleared_line_blank, occupied_views, reconciled, GridCursor,
    LineView, ScreenBuffer,
};
use vstd::prelude::*;

verus! {

/// A row's cells as a write stores them: cut or padded to `width` and repaired twice.
pub open spec fn rewritten(v: Seq<CellView>, width: int) -> Seq<CellView> {
    normalize_view(normalize_view(v, width), width)
}

/// The stored row for cells `v` written at `seqno`: repaired, with its occupied width.
pub open spec fn stored_line(v: Seq<CellView>, wrapped: bool, seqno: u64) -> LineView {
    (v, occupied_views(v) as usize, wrapped, seqno)
}

/// `v` with `count` blank cells inserted at `at`, the cells pushed past the end dropped.
pub open spec fn insert_blanks_view(v: Seq<CellView>, at: int, count: int) -> Seq<CellView> {
    Seq::new(
        v.len(),
        |i: int|
            if i < at {
                v[i]
            } else if i < at + count {
                blank_view()
            } else {
                v[i - count]
            },
    )
}

/// `v` with `count` cells removed at `at`, blank cells coming in at the end.
pub open spec fn delete_cells_view(v: Seq<CellView>, at: int, count: int) -> Seq<CellView> {
    Seq::new(
        v.len(),
        |i: int|
            if i < at {
                v[i]
            } else if i + count < v.len() {
                v[i + count]
            } else {
                blank_view()
            },
    )
}

/// `v` with the character `cell` written at `col`, followed by its right half where it is
/// wide, after removing the wide characters it overlaps.
pub open spec fn written_view(v: Seq<CellView>, col: int, width: int, cell: CellView) -> Seq<CellView> {
    if cell.2 {
        clear_overlap_view(clear_overlap_view(v, col, width), col + 1, width).update(col, cell).update(
            col + 1,
            continuation_view(cell.1),
        )
    } else {
        clear_overlap_view(v, col, width).update(col, cell)
    }
}

impl ScreenBuffer {
    /// The buffer with only its cursor, pending wrap and input start changed.
    pub open spec fn moved(&self, other: &Self) -> bool {
        &&& other.rows == self.rows
        &&& other.visible_rows == self.visible_rows
        &&& other.stable_row_offset == self.stable_row_offset
        &&& other.display_offset == self.display_offset
        &&& other.saved_cursor == self.saved_cursor
        &&& other.attrs == self.attrs
        &&& other.scroll_top == self.scroll_top
        &&& other.scroll_bottom == self.scroll_bottom
        &&& other.next_row_id == self.next_row_id
    }

    /// The buffer with the same screen size, viewport, saved cursor, attributes, scroll region
    /// and row identities to come.
    pub open spec fn kept(&self, other: &Self) -> bool {
        &&& other.visible_rows == self.visible_rows
        &&& other.stable_row_offset == self.stable_row_offset
        &&& other.display_offset == self.display_offset
        &&& other.saved_cursor == self.saved_cursor
        &&& other.attrs == self.attrs
        &&& other.scroll_top == self.scroll_top
        &&& other.scroll_bottom == self.scroll_bottom
        &&& other.next_row_id == self.next_row_id
    }

    /// Marks the cursor row as wrapping into the next one and moves the cursor to the start of
    /// the next line; on the bottom line of the scroll region the region scrolls up one line
    /// instead.
    pub(crate) fn soft_wrap(&mut self, cols: u16, seqno: u64, scrollback_limit: usize)
        requires
            old(self).wf(),
            old(self).room(0x10000),
        ensures
            final(self).wf(),
            final(self).cursor == (GridCursor {
                row: if old(self).cursor.row == old(self).scroll_bottom {
                    old(self).scroll_bottom
                } else if old(self).cursor.row < u16::MAX {
                    (old(self).cursor.row + 1) as u16
                } else {
                    u16::MAX
                },
                col: 0,
            }),
            !final(self).pending_wrap,
            final(self).visible_rows == old(self).visible_rows,
            final(self).saved_cursor == old(self).saved_cursor,
            final(self).attrs == old(self).attrs,
            final(self).scroll_top == old(self).scroll_top,
            final(self).scroll_bottom == old(self).scroll_bottom,
            final(self).len() <= if old(self).len() > old(self).visible_rows + scrollback_limit {
                old(self).len()
            } else {
                old(self).visible_rows + scrollback_limit
            },
            final(self).stable_row_offset + final(self).len() <= old(self).stable_row_offset + old(self).len() + 1,
            old(self).cursor.row != old(self).scroll_bottom ==> {
                let abs = old(self).abs_row(old(self).cursor.row as int);
                let width = if cols > 1 { cols as int } else { 1 };
                let v = rewritten(resize_view(old(self).lines()[abs].0, width), width);
                &&& final(self).lines() == old(self).lines().update(abs, stored_line(v, true, seqno))
                &&& old(self).kept(final(self))
                &&& final(self).len() == old(self).len()
            },
            old(self).cursor.row == old(self).scroll_bottom ==> old(self).wrapped_then_scrolled(final(self), cols, seqno, scrollback_limit),
    {
        let width: usize = if cols > 1 {
            cols as usize
        } else {
            1
        };
        let absolute = self.current_absolute_row();
        let mut cells = self.expanded_row_cells(absolute, width);
        normalize_cells(&mut cells, width);
        self.replace_row_cells(absolute, cells, true, width, seqno);
        let ghost marked = *self;
        if self.cursor.row == self.scroll_bottom {
            self.scroll_up_region(width as u16, 1, scrollback_limit, seqno);
            let ghost scrolled = *self;
            self.cursor.row = self.scroll_bottom;
            self.cursor.col = 0;
            self.pending_wrap = false;
            proof {
                let sub = ScreenBuffer { cursor: marked.cursor, pending_wrap: marked.pending_wrap, ..*self };
                let mid = choose|mid: ScreenBuffer| marked.scrolled(&mid) && marked.scrolled_up_range(
                    &mid,
                    marked.scroll_top,
                    marked.scroll_bottom,
                    1,
                    width,
                    scrollback_limit,
                    seqno,
                ) && #[trigger] mid.trimmed_to(&scrolled, scrollback_limit);
                assert(sub.lines() == scrolled.lines());
                assert(mid.trimmed_to(&sub, scrollback_limit));
                assert(marked.scrolled_up_by(&sub, width as u16, 1, scrollback_limit, seqno));
                let abs = old(self).abs_row(old(self).cursor.row as int);
                let wd = if cols > 1 { cols as int } else { 1 };
                assert(wd == width as int);
                let v = rewritten(resize_view(old(self).lines()[abs].0, wd), wd);
                assert(marked.lines() == old(self).lines().update(abs, stored_line(v, true, seqno)));
                assert(old(self).with_line(&marked, abs, stored_line(v, true, seqno)));
                assert(sub == (ScreenBuffer { cursor: marked.cursor, pending_wrap: marked.pending_wrap, ..*self }));
                let w16: u16 = if cols > 1 { cols } else { 1 };
                assert(w16 == width as u16);
                assert(marked.scrolled_up_by(&sub, w16, 1, scrollback_limit, seqno));
                assert(old(self).with_line(&marked, abs, stored_line(v, true, seqno)) && marked.scrolled_up_by(
                    &ScreenBuffer { cursor: marked.cursor, pending_wrap: marked.pending_wrap, ..*self },
                    w16,
                    1,
                    scrollback_limit,
                    seqno,
                ));
                assert(self.cursor == (GridCursor { row: old(self).scroll_bottom, col: 0 }));
                assert(old(self).marked_then_scrolled(&marked, self, cols, seqno, scrollback_limit));
            }
            return;
        } else {
            self.cursor.row = self.cursor.row.saturating_add(1);
        }
        self.cursor.col = 0;
        self.pending_wrap = false;
    }

    /// `m` is this buffer with the cursor line marked as wrapping into the next (as `soft_wrap`
    /// rewrites it), and `other` is `m` with the region scrolled up one line as `scrolled_up_by`
    /// says, the cursor aside.
    pub open spec fn marked_then_scrolled(&self, m: &Self, other: &Self, cols: u16, seqno: u64, scrollback_limit: usize) -> bool {
        let abs = self.abs_row(self.cursor.row as int);
        let width = if cols > 1 { cols as int } else { 1 };
        let v = rewritten(resize_view(self.lines()[abs].0, width), width);
        let w16: u16 = if cols > 1 { cols } else { 1 };
        &&& self.with_line(m, abs, stored_line(v, true, seqno))
        &&& m.scrolled_up_by(&ScreenBuffer { cursor: m.cursor, pending_wrap: m.pending_wrap, ..*other }, w16, 1, scrollback_limit, seqno)
    }

    /// What wrapping the cursor line on the bottom line of the scroll region does, giving
    /// `other`: the line is marked as wrapping into the next, then the region scrolls up one
    /// line, as `marked_then_scrolled` says, and the cursor goes to the start of the bottom line
    /// of the region.
    pub open spec fn wrapped_then_scrolled(&self, other: &Self, cols: u16, seqno: u64, scrollback_limit: usize) -> bool {
        &&& other.cursor == (GridCursor { row: self.scroll_bottom, col: 0 })
        &&& !other.pending_wrap
        &&& exists|m: ScreenBuffer| #[trigger] self.marked_then_scrolled(&m, other, cols, seqno, scrollback_limit)
    }

    /// Adds a zero-width character to the character before the cursor, where there is one.
    pub(crate) fn append_combining(&mut self, c: char, width: usize, seqno: u64)
        requires
            old(self).wf(),
        ensures
            ({
                let abs = old(self).abs_row(old(self).cursor.row as int);
                let line = old(self).lines()[abs];
                let v = resize_view(line.0, width as int);
                match combining_target(v, old(self).cursor.col as int) {
                    Some(t) => old(self).with_line(
                        final(self),
                        abs,
                        stored_line(
                            normalize_view(v.update(t, (v[t].0.push(c), v[t].1, v[t].2, v[t].3)), width as int),
                            line.2,
                            seqno,
                        ),
                    ),
                    None => *final(self) == *old(self),
                }
            }),
    {
        let absolute = self.current_absolute_row();
        let col = self.cursor.col as usize;
        let mut cells = self.expanded_row_cells(absolute, width);
        if let Some(target) = find_combining_target(&cells, col) {
            let mut cell = cells[target].clone();
            cell.push_char(c);
            cells.set(target, cell);
            let wrapped = self.line_at(absolute).wrapped();
            proof {
                let v = resize_view(old(self).lines()[absolute as int].0, width as int);
                super::line::lemma_combining_target_in_row(v, col as int);
                assert(views(cells@) =~= v.update(target as int, (v[target as int].0.push(c), v[target as int].1, v[target as int].2, v[target as int].3)));
            }
            self.replace_row_cells(absolute, cells, wrapped, width, seqno);
        }
    }
}

/// The cell a character `c` of display width `cw` becomes, drawn with `attrs`.
pub open spec fn char_cell(c: char, cw: int, attrs: super::cells::CellAttributes) -> CellView {
    (seq![c], attrs, cw == 2, false)
}

/// Row `abs` of `lines` with the character cell `cell` written at `col`, cut or padded to `width`
/// and repaired.
pub open spec fn written_lines(lines: Seq<LineView>, abs: int, col: int, width: int, cell: CellView, seqno: u64) -> Seq<LineView> {
    lines.update(
        abs,
        stored_line(rewritten(written_view(resize_view(lines[abs].0, width), col, width, cell), width), lines[abs].2, seqno),
    )
}

/// Row `abs` of `lines` ended as wrapping into the next row, cut or padded to `width` and
/// repaired.
pub open spec fn wrapped_lines(lines: Seq<LineView>, abs: int, width: int, seqno: u64) -> Seq<LineView> {
    lines.update(abs, stored_line(rewritten(resize_view(lines[abs].0, width), width), true, seqno))
}

impl ScreenBuffer {
    /// Writes the character `c` of display width `cw` at the cursor, with the right half of a
    /// two-column character after it, and moves the cursor past it; at the end of the line the
    /// cursor stays on the last column with a wrap pending where `wraparound` is on.
    pub(crate) fn write_at_cursor(&mut self, c: char, cw: usize, width: usize, seqno: u64, wraparound: bool)
        requires
            old(self).wf(),
            1 <= cw <= 3,
            old(self).cursor.col + cw <= width,
            width <= u16::MAX,
        ensures
            ({
                let abs = old(self).abs_row(old(self).cursor.row as int);
                let col = old(self).cursor.col as int;
                let next_col = col + cw;
                &&& old(self).kept(final(self))
                &&& final(self).len() == old(self).len()
                &&& final(self).lines() == written_lines(old(self).lines(), abs, col, width as int, char_cell(c, cw as int, old(self).attrs), seqno)
                &&& final(self).current_input_start == if old(self).current_input_start is None {
                    Some(old(self).rows.rows()[abs].id_spec())
                } else {
                    old(self).current_input_start
                }
                &&& final(self).cursor == (GridCursor {
                    row: old(self).cursor.row,
                    col: if next_col >= width { (width - 1) as u16 } else { next_col as u16 },
                })
                &&& final(self).pending_wrap == (next_col >= width && wraparound)
                &&& final(self).wf()
            }),
    {
        let absolute = self.current_absolute_row();
        if self.current_input_start.is_none() {
            self.current_input_start = Some(self.rows.get(absolute).unwrap().id());
        }
        let attrs = self.attrs;
        let col = self.cursor.col as usize;
        let mut cells = self.expanded_row_cells(absolute, width);
        let ghost v0 = views(cells@);
        assert(v0.len() == cells@.len());
        clear_overlap(&mut cells, col, width);
        if cw == 2 {
            clear_overlap(&mut cells, col + 1, width);
        }
        cells.set(col, TerminalCell::from_char(c, attrs, cw == 2));
        if cw == 2 {
            cells.set(col + 1, TerminalCell::continuation(attrs));
        }
        proof {
            assert(views(cells@) =~= written_view(v0, col as int, width as int, char_cell(c, cw as int, attrs)));
        }
        normalize_cells(&mut cells, width);
        let wrapped = self.line_at(absolute).wrapped();
        let ghost before = *self;
        self.replace_row_cells(absolute, cells, wrapped, width, seqno);
        let next_col = col + cw;
        if next_col >= width {
            self.cursor.col = (width - 1) as u16;
            self.pending_wrap = wraparound;
        } else {
            self.cursor.col = next_col as u16;
            self.pending_wrap = false;
        }
    }
}

/// The display width a character is printed with: what was measured, one column where nothing
/// was.
pub open spec fn print_width(w: Option<usize>) -> int {
    match w {
        Some(k) => k as int,
        None => 1,
    }
}

/// The column after printing a character of width `cw` at `col`: past it, or the last column.
pub open spec fn col_after(col: int, cw: int, width: int) -> u16 {
    if col + cw >= width { (width - 1) as u16 } else { (col + cw) as u16 }
}

/// `row + 1`, or `u16::MAX` where that is larger.
pub open spec fn next_row(row: u16) -> u16 {
    if row < u16::MAX { (row + 1) as u16 } else { u16::MAX }
}

impl ScreenBuffer {
    /// What printing `c` of display width `w` does to the buffer, as `put_char` states it.
    pub open spec fn printed(&self, other: &Self, c: char, w: Option<usize>, cols: u16, seqno: u64, wraparound: bool, scrollback_limit: usize) -> bool {

            let width = if cols > 1 { cols as int } else { 1 };
            let cw = print_width(w);
            let row = self.cursor.row;
            let col = self.cursor.col as int;
            let cell = char_cell(c, cw, self.attrs);
            let wraps = 1 <= cw <= width && wraparound && (self.pending_wrap || col + cw > width);
            &&& other.wf()
            &&& other.cursor.col < width
            &&& other.visible_rows == self.visible_rows
            &&& other.saved_cursor == self.saved_cursor
            &&& other.attrs == self.attrs
            &&& other.scroll_top == self.scroll_top
            &&& other.scroll_bottom == self.scroll_bottom
            &&& other.len() <= if self.len() > self.visible_rows + scrollback_limit {
                self.len()
            } else {
                self.visible_rows + scrollback_limit
            }
            &&& other.stable_row_offset + other.len() <= self.stable_row_offset + self.len() + 1
            &&& cw == 0 ==> {
                let abs = self.abs_row(row as int);
                let line = self.lines()[abs];
                let v = resize_view(line.0, width);
                match combining_target(v, col) {
                    Some(t) => self.with_line(
                        other,
                        abs,
                        stored_line(normalize_view(v.update(t, (v[t].0.push(c), v[t].1, v[t].2, v[t].3)), width), line.2, seqno),
                    ),
                    None => *other == *self,
                }
            }
            &&& cw > width ==> *other == *self
            &&& (1 <= cw <= width && !wraps) ==> {
                let at = if col + cw > width { width - cw } else { col };
                let abs = self.abs_row(row as int);
                &&& self.kept(other)
                &&& other.len() == self.len()
                &&& other.lines() == written_lines(self.lines(), abs, at, width, cell, seqno)
                &&& other.cursor == (GridCursor { row, col: col_after(at, cw, width) })
                &&& other.pending_wrap == (at + cw >= width && wraparound)
                &&& other.current_input_start == if self.current_input_start is None {
                    Some(self.rows.rows()[abs].id_spec())
                } else {
                    self.current_input_start
                }
            }
            &&& wraps ==> {
                &&& other.cursor.col == col_after(0, cw, width)
                &&& other.pending_wrap == (cw >= width)
                &&& other.cursor.row == if row == self.scroll_bottom { row } else { next_row(row) }
            }
            &&& (wraps && row != self.scroll_bottom) ==> {
                let a1 = self.abs_row(row as int);
                let a2 = self.abs_row(next_row(row) as int);
                &&& self.kept(other)
                &&& other.len() == self.len()
                &&& other.lines() == written_lines(wrapped_lines(self.lines(), a1, width, seqno), a2, 0, width, cell, seqno)
            }
            &&& (wraps && row == self.scroll_bottom) ==> exists|m: ScreenBuffer| #[trigger] self.wrapped_then_scrolled(&m, cols, seqno, scrollback_limit) && {
                &&& other.len() == m.len()
                &&& other.lines() == written_lines(m.lines(), m.abs_row(m.cursor.row as int), 0, width, cell, seqno)
            }
    }

    /// Prints `c`, whose display width is `w` (one column where it has none), at the cursor on
    /// a screen `cols` columns wide. A zero-width character joins the character before the
    /// cursor; one wider than the screen is dropped. Where the character does not fit on the
    /// line, or a wrap is pending, the line wraps first if `wraparound` is on; otherwise the
    /// character is written at the end of the line.
    pub(crate) fn put_char(&mut self, c: char, w: Option<usize>, cols: u16, seqno: u64, wraparound: bool, scrollback_limit: usize)
        requires
            old(self).wf(),
            old(self).room(0x10000),
            old(self).cursor.col < if cols > 1 { cols } else { 1 },
            w matches Some(k) ==> k <= 3,
        ensures
            old(self).printed(final(self), c, w, cols, seqno, wraparound, scrollback_limit),
    {
        let width: usize = if cols > 1 {
            cols as usize
        } else {
            1
        };
        let cw: usize = match w {
            Some(k) => k,
            None => 1,
        };
        if cw == 0 {
            self.append_combining(c, width, seqno);
            return;
        }
        if cw > width {
            return;
        }
        if self.pending_wrap && wraparound {
            self.soft_wrap(cols, seqno, scrollback_limit);
        } else if self.cursor.col as usize + cw > width {
            if wraparound {
                self.soft_wrap(cols, seqno, scrollback_limit);
            } else {
                self.cursor.col = (width - cw) as u16;
            }
        }
        let ghost wrapped = *self;
        self.write_at_cursor(c, cw, width, seqno, wraparound);
        proof {
            if old(self).cursor.row == old(self).scroll_bottom && wraparound && (old(self).pending_wrap || old(self).cursor.col + cw > width) {
                assert(old(self).wrapped_then_scrolled(&wrapped, cols, seqno, scrollback_limit));
            }
        }
    }
}

impl ScreenBuffer {
    /// What inserting blank cells at the cursor does to the buffer, as `insert_blank_chars` states it.
    pub open spec fn blanks_inserted(&self, other: &Self, cols: u16, count: u16, seqno: u64) -> bool {
        &&& other.wf()
        &&& {
            let width = if cols > 1 { cols as int } else { 1 };
            let n = if count > 1 { count as int } else { 1 };
            let abs = self.abs_row(self.cursor.row as int);
            let line = self.lines()[abs];
            let v = insert_blanks_view(resize_view(line.0, width), self.cursor.col as int, n);
            self.with_line(other, abs, stored_line(rewritten(v, width), line.2, seqno))
        }
    }

    /// Inserts `count` blank cells (at least one) at the cursor, pushing the rest of the row
    /// right; cells pushed past the last column are lost.
    pub(crate) fn insert_blank_chars(&mut self, cols: u16, count: u16, seqno: u64)
        requires
            old(self).wf(),
        ensures
            old(self).blanks_inserted(final(self), cols, count, seqno),
    {
        let width: usize = if cols > 1 {
            cols as usize
        } else {
            1
        };
        let n: usize = if count > 1 {
            count as usize
        } else {
            1
        };
        let absolute = self.current_absolute_row();
        let at = self.cursor.col as usize;
        let wrapped = self.line_at(absolute).wrapped();
        let mut cells = self.expanded_row_cells(absolute, width);
        let ghost v0 = views(cells@);
        assert(v0.len() == cells@.len());
        let mut idx = width;
        while idx > at
            invariant
                cells@.len() == width,
                v0.len() == width,
                width <= 0xffff,
                n <= 0xffff,
                at <= 0xffff,
                idx <= width || idx == at,
                forall|i: int| 0 <= i < width ==> #[trigger] views(cells@)[i] == if i < idx {
                    v0[i]
                } else {
                    insert_blanks_view(v0, at as int, n as int)[i]
                },
            decreases idx,
        {
            idx = idx - 1;
            let ghost before = views(cells@);
            if idx >= at + n {
                let moved = cells[idx - n].clone();
                cells.set(idx, moved);
            } else {
                cells.set(idx, TerminalCell::blank());
            }
            proof {
                assert forall|i: int| 0 <= i < width implies #[trigger] views(cells@)[i] == if i < idx {
                    v0[i]
                } else {
                    insert_blanks_view(v0, at as int, n as int)[i]
                } by {
                    if i != idx {
                        assert(views(cells@)[i] == before[i]);
                    } else if idx >= at + n {
                        assert(before[idx - n] == v0[idx - n]);
                    }
                }
            }
        }
        proof {
            assert(views(cells@) =~= insert_blanks_view(v0, at as int, n as int));
        }
        normalize_cells(&mut cells, width);
        self.replace_row_cells(absolute, cells, wrapped, width, seqno);
    }

    /// What deleting cells at the cursor does to the buffer, as `delete_chars` states it.
    pub open spec fn chars_deleted(&self, other: &Self, cols: u16, count: u16, seqno: u64) -> bool {
        &&& other.wf()
        &&& {
            let width = if cols > 1 { cols as int } else { 1 };
            let n = if count > 1 { count as int } else { 1 };
            let abs = self.abs_row(self.cursor.row as int);
            let line = self.lines()[abs];
            let v = delete_cells_view(resize_view(line.0, width), self.cursor.col as int, n);
            self.with_line(other, abs, stored_line(rewritten(v, width), line.2, seqno))
        }
    }

    /// Deletes `count` cells (at least one) at the cursor, pulling the rest of the row left and
    /// blank cells in at the end.
    pub(crate) fn delete_chars(&mut self, cols: u16, count: u16, seqno: u64)
        requires
            old(self).wf(),
        ensures
            old(self).chars_deleted(final(self), cols, count, seqno),
    {
        let width: usize = if cols > 1 {
            cols as usize
        } else {
            1
        };
        let n: usize = if count > 1 {
            count as usize
        } else {
            1
        };
        let absolute = self.current_absolute_row();
        let at = self.cursor.col as usize;
        let wrapped = self.line_at(absolute).wrapped();
        let mut cells = self.expanded_row_cells(absolute, width);
        let ghost v0 = views(cells@);
        assert(v0.len() == cells@.len());
        let mut idx = at;
        while idx < width
            invariant
                cells@.len() == width,
                v0.len() == width,
                width <= 0xffff,
                n <= 0xffff,
                at <= idx,
                forall|i: int| 0 <= i < width ==> #[trigger] views(cells@)[i] == if i >= idx {
                    v0[i]
                } else {
                    delete_cells_view(v0, at as int, n as int)[i]
                },
            decreases width - idx,
        {
            let ghost before = views(cells@);
            if idx + n < width {
                let moved = cells[idx + n].clone();
                cells.set(idx, moved);
            } else {
                cells.set(idx, TerminalCell::blank());
            }
            proof {
                assert forall|i: int| 0 <= i < width implies #[trigger] views(cells@)[i] == if i >= idx + 1 {
                    v0[i]
                } else {
                    delete_cells_view(v0, at as int, n as int)[i]
                } by {
                    if i != idx {
                        assert(views(cells@)[i] == before[i]);
                    } else if idx + n < width {
                        assert(before[idx + n] == v0[idx + n]);
                    }
                }
            }
            idx = idx + 1;
        }
        proof {
            assert(views(cells@) =~= delete_cells_view(v0, at as int, n as int));
        }
        normalize_cells(&mut cells, width);
        self.replace_row_cells(absolute, cells, wrapped, width, seqno);
    }

    /// What erasing cells from the cursor on does to the buffer, as `erase_chars` states it.
    pub open spec fn chars_erased(&self, other: &Self, cols: u16, count: u16, seqno: u64) -> bool {
        &&& other.wf()
        &&& {
            let width = if cols > 1 { cols as int } else { 1 };
            let n = if count > 1 { count as int } else { 1 };
            let abs = self.abs_row(self.cursor.row as int);
            let line = self.lines()[abs];
            let start = self.cursor.col as int;
            let lo = if start < width { start } else { width };
            let hi = if start + n < width { start + n } else { width };
            let v = normalize_view(normalize_view(clear_cols(resize_view(line.0, width), lo, hi, width), width), width);
            self.with_line(other, abs, stored_line(v, if start == 0 && start + n >= width { false } else { line.2 }, seqno))
        }
    }

    /// Blanks `count` cells (at least one) from the cursor on, with any wide character they cut
    /// into.
    pub(crate) fn erase_chars(&mut self, cols: u16, count: u16, seqno: u64)
        requires
            old(self).wf(),
        ensures
            old(self).chars_erased(final(self), cols, count, seqno),
    {
        let width: usize = if cols > 1 {
            cols as usize
        } else {
            1
        };
        let n: usize = if count > 1 {
            count as usize
        } else {
            1
        };
        let absolute = self.current_absolute_row();
        let start = self.cursor.col as usize;
        self.clear_row_range(absolute, start, start + n, width, seqno);
    }
}

impl ScreenBuffer {
    /// Moves the cursor one row down, scrolling the region up one line where the cursor is on
    /// its bottom row; then the current input starts on the cursor row.
    pub(crate) fn line_feed(&mut self, cols: u16, scrollback_limit: usize, seqno: u64)
        requires
            old(self).wf(),
            old(self).room(0x10000),
            cols >= 1,
        ensures
            final(self).wf(),
            old(self).cursor.row == old(self).scroll_bottom ==> {
                &&& old(self).scrolled_up_by(
                    &ScreenBuffer {
                        current_input_start: reconciled(final(self).rows.rows(), old(self).current_input_start),
                        pending_wrap: old(self).pending_wrap,
                        ..*final(self)
                    },
                    cols,
                    1,
                    scrollback_limit,
                    seqno,
                )
                &&& final(self).cursor.row == old(self).scroll_bottom
            },
            old(self).cursor.row != old(self).scroll_bottom ==> {
                &&& final(self).rows == old(self).rows
                &&& final(self).cursor.row == next_row(old(self).cursor.row)
                &&& old(self).kept(final(self))
            },
            final(self).cursor.col == old(self).cursor.col,
            !final(self).pending_wrap,
            final(self).current_input_start == Some(final(self).rows.rows()[final(self).abs_row(final(self).cursor.row as int)].id_spec()),
            final(self).stable_row_offset + final(self).len() <= old(self).stable_row_offset + old(self).len() + 1,
    {
        let ghost scrolled = *old(self);
        if self.cursor.row == self.scroll_bottom {
            self.scroll_up_region(cols, 1, scrollback_limit, seqno);
            proof {
                scrolled = *self;
            }
            self.cursor.row = self.scroll_bottom;
        } else {
            self.cursor.row = self.cursor.row.saturating_add(1);
        }
        self.pending_wrap = false;
        let absolute = self.current_absolute_row();
        proof {
            self.rows.lemma_wf();
        }
        self.current_input_start = Some(self.rows.get(absolute).unwrap().id());
        proof {
            if old(self).cursor.row == old(self).scroll_bottom {
                let sub = ScreenBuffer {
                    current_input_start: reconciled(self.rows.rows(), old(self).current_input_start),
                    pending_wrap: old(self).pending_wrap,
                    ..*self
                };
                let mid = choose|mid: ScreenBuffer| old(self).scrolled(&mid) && old(self).scrolled_up_range(
                    &mid,
                    old(self).scroll_top,
                    old(self).scroll_bottom,
                    1,
                    cols as usize,
                    scrollback_limit,
                    seqno,
                ) && #[trigger] mid.trimmed_to(&scrolled, scrollback_limit);
                assert(sub.lines() == scrolled.lines());
                assert(mid.trimmed_to(&sub, scrollback_limit));
            }
        }
    }

    /// Moves the cursor one row up, scrolling the region down one line where the cursor is on
    /// its top row.
    pub(crate) fn reverse_line_feed(&mut self, cols: u16, scrollback_limit: usize, seqno: u64)
        requires
            old(self).wf(),
            cols >= 1,
        ensures
            final(self).wf(),
            old(self).cursor.row == old(self).scroll_top ==> old(self).scrolled_down_by(
                &ScreenBuffer { pending_wrap: old(self).pending_wrap, ..*final(self) },
                cols,
                1,
                scrollback_limit,
                seqno,
            ),
            old(self).cursor.row != old(self).scroll_top ==> *final(self) == (ScreenBuffer {
                cursor: GridCursor {
                    row: if old(self).cursor.row >= 1 { (old(self).cursor.row - 1) as u16 } else { 0 },
                    col: old(self).cursor.col,
                },
                pending_wrap: false,
                ..*old(self)
            }),
            !final(self).pending_wrap,
            final(self).len() == old(self).len(),
            final(self).stable_row_offset == old(self).stable_row_offset,
    {
        if self.cursor.row == self.scroll_top {
            self.scroll_down_region(cols, 1, scrollback_limit, seqno);
        } else {
            self.cursor.row = self.cursor.row.saturating_sub(1);
        }
        self.pending_wrap = false;
    }
}

/// `lines` with screen rows `from..to` (each kept on a screen of `visible` rows starting at
/// row `live`) blanked whole, one after another, at `width` columns.
pub open spec fn cleared_screen_rows(lines: Seq<LineView>, live: int, visible: int, from: int, to: int, width: int, seqno: u64) -> Seq<LineView>
    decreases to - from,
{
    if to <= from {
        lines
    } else {
        let l = cleared_screen_rows(lines, live, visible, from, to - 1, width, seqno);
        let a = live + if to - 1 < visible - 1 { to - 1 } else { visible - 1 };
        l.update(a, cleared_line(l[a], 0, width, width, seqno))
    }
}

/// Blanking screen rows `from..to` leaves each of them a blank row and every other row as it
/// was.
pub proof fn lemma_cleared_screen_rows(lines: Seq<LineView>, live: int, visible: int, from: int, to: int, width: int, seqno: u64)
    requires
        0 <= live,
        live + visible <= lines.len(),
        0 <= from,
        to <= visible,
        width >= 1,
    ensures
        cleared_screen_rows(lines, live, visible, from, to, width, seqno).len() == lines.len(),
        forall|r: int| from <= r < to ==> is_blank_line(#[trigger] cleared_screen_rows(lines, live, visible, from, to, width, seqno)[live + r], width, seqno),
        forall|i: int| 0 <= i < lines.len() && !(live + from <= i < live + to) ==> #[trigger] cleared_screen_rows(lines, live, visible, from, to, width, seqno)[i] == lines[i],
    decreases to - from,
{
    if to > from {
        lemma_cleared_screen_rows(lines, live, visible, from, to - 1, width, seqno);
        let l = cleared_screen_rows(lines, live, visible, from, to - 1, width, seqno);
        lemma_cleared_line_blank(l[live + to - 1], width, seqno);
    }
}

/// `lines` with rows `from..to` blanked whole, one after another, at `width` columns.
pub open spec fn cleared_rows(lines: Seq<LineView>, from: int, to: int, width: int, seqno: u64) -> Seq<LineView>
    decreases to - from,
{
    if to <= from {
        lines
    } else {
        let l = cleared_rows(lines, from, to - 1, width, seqno);
        l.update(to - 1, cleared_line(l[to - 1], 0, width, width, seqno))
    }
}

/// Blanking rows `from..to` keeps the number of rows.
pub proof fn lemma_cleared_rows_len(lines: Seq<LineView>, from: int, to: int, width: int, seqno: u64)
    requires
        0 <= from,
        to <= lines.len(),
    ensures
        cleared_rows(lines, from, to, width, seqno).len() == lines.len(),
    decreases to - from,
{
    if to > from {
        lemma_cleared_rows_len(lines, from, to - 1, width, seqno);
    }
}

/// Erasing from a cursor in the first column starts at a row at or above the cursor row.
pub proof fn lemma_erase_start(b: ScreenBuffer)
    requires
        b.wf(),
    ensures
        0 <= erase_start(b) <= b.abs_row(b.cursor.row as int),
{
    let a = b.abs_row(b.cursor.row as int);
    if let Some(id) = b.current_input_start {
        super::screen::lemma_first_with_id(b.rows.rows(), id, 0);
    }
    let s0 = match b.current_input_start {
        Some(id) => match first_with_id(b.rows.rows(), id, 0) {
            Some(i) => if i < a { i } else { a },
            None => a,
        },
        None => a,
    };
    lemma_wrapped_start(b.lines(), s0);
}

/// The first row of the wrapped line that row `i` belongs to.
pub open spec fn wrapped_start(lines: Seq<LineView>, i: int) -> int
    decreases i,
{
    if i > 0 && lines[i - 1].2 {
        wrapped_start(lines, i - 1)
    } else {
        i
    }
}

/// Where erasing from a cursor in the first column starts: the start of the wrapped line that
/// holds the row the current input started on, where that row is held and not below the
/// cursor, else the start of the wrapped line that holds the cursor row.
pub open spec fn erase_start(b: ScreenBuffer) -> int {
    let a = b.abs_row(b.cursor.row as int);
    let s0 = match b.current_input_start {
        Some(id) => match first_with_id(b.rows.rows(), id, 0) {
            Some(i) => if i < a { i } else { a },
            None => a,
        },
        None => a,
    };
    wrapped_start(b.lines(), s0)
}

/// The rows of `b` after erasing in the display with `mode` at `width` columns: above the
/// cursor (1), the whole screen (2), or else below the cursor, from the cursor on, and, with
/// the cursor in the first column, back to the start of the current input.
pub open spec fn erased_lines(b: ScreenBuffer, mode: u16, width: int, seqno: u64) -> Seq<LineView> {
    let live = b.live_start_spec();
    let v = b.visible_rows as int;
    let a = b.abs_row(b.cursor.row as int);
    if mode == 1 {
        let l = cleared_screen_rows(b.lines(), live, v, 0, b.cursor.row as int, width, seqno);
        l.update(a, cleared_line(l[a], 0, b.cursor.col + 1, width, seqno))
    } else if mode == 2 {
        cleared_screen_rows(b.lines(), live, v, 0, v, width, seqno)
    } else {
        let l1 = if b.cursor.col == 0 {
            cleared_rows(b.lines(), erase_start(b), a, width, seqno)
        } else {
            b.lines()
        };
        let l2 = l1.update(a, cleared_line(l1[a], b.cursor.col as int, width, width, seqno));
        cleared_screen_rows(l2, live, v, (b.cursor.row + 1) % 0x10000, v, width, seqno)
    }
}

proof fn lemma_wrapped_start(lines: Seq<LineView>, i: int)
    requires
        0 <= i,
    ensures
        0 <= wrapped_start(lines, i) <= i,
    decreases i,
{
    if i > 0 && lines[i - 1].2 {
        lemma_wrapped_start(lines, i - 1);
    }
}

impl ScreenBuffer {
    /// Blanks screen rows `from..to` whole, each kept on the screen.
    fn clear_screen_rows(&mut self, from: u16, to: u16, width: usize, seqno: u64)
        requires
            old(self).wf(),
            width >= 1,
        ensures
            final(self).wf(),
            *final(self) == (ScreenBuffer { rows: final(self).rows, ..*old(self) }),
            final(self).len() == old(self).len(),
            final(self).lines() == cleared_screen_rows(
                old(self).lines(),
                old(self).live_start_spec(),
                old(self).visible_rows as int,
                from as int,
                to as int,
                width as int,
                seqno,
            ),
    {
        let mut row = from;
        while row < to
            invariant
                from <= row <= to || (row == from && to < from),
                self.wf(),
                width >= 1,
                *self == (ScreenBuffer { rows: self.rows, ..*old(self) }),
                self.len() == old(self).len(),
                self.lines() == cleared_screen_rows(
                    old(self).lines(),
                    old(self).live_start_spec(),
                    old(self).visible_rows as int,
                    from as int,
                    row as int,
                    width as int,
                    seqno,
                ),
            decreases to - row,
        {
            let absolute = self.absolute_screen_row(row);
            self.clear_row_range(absolute, 0, width, width, seqno);
            row = row + 1;
        }
    }

    /// Blanks rows `from..to` whole.
    fn clear_rows(&mut self, from: usize, to: usize, width: usize, seqno: u64)
        requires
            old(self).wf(),
            width >= 1,
            to <= old(self).len(),
        ensures
            final(self).wf(),
            *final(self) == (ScreenBuffer { rows: final(self).rows, ..*old(self) }),
            final(self).len() == old(self).len(),
            final(self).lines() == cleared_rows(old(self).lines(), from as int, to as int, width as int, seqno),
    {
        let mut row = from;
        while row < to
            invariant
                from <= row <= to || (row == from && to < from),
                to <= self.len(),
                self.wf(),
                width >= 1,
                *self == (ScreenBuffer { rows: self.rows, ..*old(self) }),
                self.len() == old(self).len(),
                self.lines() == cleared_rows(old(self).lines(), from as int, row as int, width as int, seqno),
            decreases to - row,
        {
            self.clear_row_range(row, 0, width, width, seqno);
            row = row + 1;
        }
    }

    /// What erasing in the display with `mode` does to the buffer, as `erase_display` states it.
    pub open spec fn display_erased(&self, other: &Self, mode: u16, width: usize, seqno: u64) -> bool {
        &&& other.wf()
        &&& mode == 3 ==> {
            &&& self.scrolled(other)
            &&& other.lines() == self.lines().subrange(self.history(), self.len())
            &&& other.display_offset == 0
            &&& other.stable_row_offset == self.stable_row_offset + self.history()
            &&& other.current_input_start == reconciled(other.rows.rows(), self.current_input_start)
        }
        &&& mode != 3 ==> {
            &&& *other == (ScreenBuffer { rows: other.rows, ..*self })
            &&& other.len() == self.len()
            &&& other.lines() == erased_lines(*self, mode, width as int, seqno)
        }
    }

    /// Erases in the display with `mode`: above the cursor and up to it (1), the whole screen
    /// (2), the scrollback (3), or else from the cursor to the end of the screen, and, with
    /// the cursor in the first column, back to the start of the current input.
    pub(crate) fn erase_display(&mut self, mode: u16, width: usize, seqno: u64)
        requires
            old(self).wf(),
            width >= 1,
        ensures
            old(self).display_erased(final(self), mode, width, seqno),
    {
        let rows = self.visible_rows;
        if mode == 3 {
            self.clear_scrollback();
        } else if mode == 1 {
            let cursor = self.cursor;
            self.clear_screen_rows(0, cursor.row, width, seqno);
            let absolute = self.current_absolute_row();
            self.clear_row_range(absolute, 0, cursor.col as usize + 1, width, seqno);
        } else if mode == 2 {
            self.clear_screen_rows(0, rows, width, seqno);
        } else {
            let cursor = self.cursor;
            let absolute = self.current_absolute_row();
            if cursor.col == 0 {
                let mut clear_start = match self.current_input_absolute_index() {
                    Some(i) => i,
                    None => absolute,
                };
                if clear_start > absolute {
                    clear_start = absolute;
                }
                let ghost s0 = clear_start as int;
                proof {
                    lemma_wrapped_start(self.lines(), s0);
                    if let Some(id) = self.current_input_start {
                        super::screen::lemma_first_with_id(self.rows.rows(), id, 0);
                    }
                }
                while clear_start > 0 && self.line_at(clear_start - 1).wrapped()
                    invariant
                        self.wf(),
                        *self == *old(self),
                        clear_start <= absolute < self.len(),
                        wrapped_start(self.lines(), s0) == wrapped_start(self.lines(), clear_start as int),
                    decreases clear_start,
                {
                    clear_start = clear_start - 1;
                }
                proof {
                    assert(clear_start == erase_start(*old(self)));
                }
                self.clear_rows(clear_start, absolute, width, seqno);
            }
            self.clear_row_range(absolute, cursor.col as usize, width, width, seqno);
            self.clear_screen_rows(cursor.row.wrapping_add(1), rows, width, seqno);
        }
    }
}

} // verus!
