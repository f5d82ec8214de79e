//! Changing the size of a screen buffer: more or fewer visible rows, and a new width with or
//! without rewrapping the rows.

use super::cells::{blank_view, CellView, TerminalCell};
use super::edit::stored_line;
use super::line::{
    copy_range, map_col_from, map_logical_col_to_rows, normalize_cells, normalize_view, reflow_break_spec, resize_cells,
    resize_view, row_occupied_columns, segments_from, views, wrap_logical_row, wrap_view,
};
use super::screen::{
    is_blank_line, lemma_occupied_views, first_with_id, lemma_reconciled_twice, lines_of, reconciled, sat_add_u64, BufferRow, LineView, Row, ScreenBuffer, ROW_LIMIT,
};
use crate::grid::storage::MAX_CACHE_SIZE;
use vstd::prelude::*;

verus! {

/// `a` where it is below `b`, else `b`.
pub open spec fn min_int(a: int, b: int) -> int {
    if a < b { a } else { b }
}

impl ScreenBuffer {
    /// Shows `rows` visible rows where there were fewer: the rows just above the screen come
    /// back into view, as many as there are, and the cursor moves down with them; where there
    /// are not enough, the screen scrolls up to make room.
    pub(crate) fn grow_visible_rows(&mut self, rows: u16, width: usize, scrollback_limit: usize, seqno: u64)
        requires
            old(self).wf(),
            old(self).room(0x20000),
            old(self).visible_rows < rows,
            1 <= width <= 0xffff,
        ensures
            final(self).current_input_start == if old(self).history() < rows - old(self).visible_rows {
                reconciled(final(self).rows.rows(), old(self).current_input_start)
            } else {
                old(self).current_input_start
            },
            final(self).wf(),
            final(self).visible_rows == rows,
            ({
                let added = rows - old(self).visible_rows;
                let from_history = min_int(old(self).history(), added);
                &&& final(self).cursor.row == min_int(old(self).cursor.row + from_history, rows - 1)
                &&& final(self).cursor.col == old(self).cursor.col
                &&& final(self).saved_cursor.cursor.row == min_int(old(self).saved_cursor.cursor.row + from_history, rows - 1)
                &&& final(self).saved_cursor.cursor.col == old(self).saved_cursor.cursor.col
                &&& final(self).saved_cursor.attrs == old(self).saved_cursor.attrs
                &&& final(self).len() >= old(self).len() + added
                &&& final(self).len() <= old(self).len() + 2 * added
                &&& final(self).stable_row_offset == old(self).stable_row_offset
                &&& final(self).display_offset == if old(self).display_offset > added { old(self).display_offset - added } else { 0 }
            }),
            final(self).attrs == old(self).attrs,
            final(self).pending_wrap == old(self).pending_wrap,
            old(self).grown_rows(final(self).lines(), rows, width, scrollback_limit, seqno),
    {
        let ghost o = self.lines();
        let ghost old_rows = self.rows.rows();
        let added = (rows - self.visible_rows) as usize;
        let next = self.next_row_id;
        let make = |k: usize| -> (r: Row)
            ensures
                r.id_spec() == sat_add_u64(next, k as u64),
                is_blank_line(r.line_view(), if width > 1 { width as int } else { 1 }, seqno),
            { Row::blank(next.saturating_add(k as u64), width, seqno) };
        let made: usize = if self.rows.len() + added > self.rows.allocated() {
            if added > MAX_CACHE_SIZE {
                added
            } else {
                MAX_CACHE_SIZE
            }
        } else {
            0
        };
        proof {
            self.rows.lemma_wf();
        }
        self.rows.grow_visible_lines(rows as usize, make);
        self.next_row_id = next.saturating_add(made as u64);
        self.visible_rows = rows;
        let ghost mid = *self;
        proof {
            self.rows.lemma_wf();
            assert forall|j: int| added <= j < mid.len() implies #[trigger] mid.lines()[j] == o[j - added] by {
                assert(mid.rows.rows()[j] == old_rows[j - added]);
            }
        }
        let history = self.history_size();
        let from_history = if history < added {
            history
        } else {
            added
        };
        if from_history != added {
            let delta = added - from_history;
            self.scroll_up_range(0, rows - 1, delta, width, scrollback_limit, seqno);
            proof {
                assert(mid.scroll_step(0, (rows - 1) as u16, delta) == delta);
                assert(self.display_offset <= added);
                assert(mid.top_lines_scrolled_up(self.lines(), rows as int, delta as int, width, scrollback_limit, seqno));
            }
        }
        let ghost rows_after = self.rows;
        let max_row = (rows - 1) as usize;
        let row = self.cursor.row as usize + from_history;
        self.cursor.row = if row < max_row {
            row as u16
        } else {
            max_row as u16
        };
        let saved = self.saved_cursor.cursor.row as usize + from_history;
        self.saved_cursor.cursor.row = if saved < max_row {
            saved as u16
        } else {
            max_row as u16
        };
        self.display_offset = self.display_offset.saturating_sub(added);
        proof {
            assert(self.rows == rows_after);
            if from_history != added {
                assert(mid.top_lines_scrolled_up(self.lines(), rows as int, (added - from_history) as int, width, scrollback_limit, seqno));
            }
        }
    }

    /// The rows `n` that showing `rows` rows where there were fewer leaves: `rows` minus the
    /// visible rows more rows, the old rows below them, and spare rows above; the newest rows
    /// of the scrollback come into view. Where the scrollback has fewer rows than that, the
    /// taller screen then scrolls up, as `top_lines_scrolled_up` says, by the rows missing.
    pub open spec fn grown_rows(&self, n: Seq<LineView>, rows: u16, width: usize, scrollback_limit: usize, seqno: u64) -> bool {
        let a = rows - self.visible_rows;
        let h = self.history();
        if h >= a {
            &&& n.len() == self.len() + a
            &&& forall|j: int| a <= j < n.len() ==> #[trigger] n[j] == self.lines()[j - a]
        } else {
            exists|mid: ScreenBuffer| {
                &&& mid.len() == self.len() + a
                &&& mid.visible_rows == rows
                &&& forall|j: int| a <= j < mid.len() ==> #[trigger] mid.lines()[j] == self.lines()[j - a]
                &&& #[trigger] mid.top_lines_scrolled_up(n, rows as int, a - h, width, scrollback_limit, seqno)
            }
        }
    }

    /// The view after the whole screen `pre` scrolled up to `mid`, carried over unchanged to
    /// `other`, is the one `shrunk_view` names.
    proof fn lemma_shrunk_view(b: ScreenBuffer, pre: ScreenBuffer, mid: ScreenBuffer, other: ScreenBuffer, rows: u16, width: usize, scrollback_limit: usize, seqno: u64)
        requires
            b.cursor.row >= (if rows > 1 { rows } else { 1 }),
            pre == (ScreenBuffer { scroll_top: 0, scroll_bottom: (b.visible_rows - 1) as u16, ..b }),
            pre.scrolled_up_by(&mid, width as u16, (b.cursor.row - (if rows > 1 { rows } else { 1 }) + 1) as u16, scrollback_limit, seqno),
            other.display_offset == mid.display_offset,
            other.stable_row_offset == mid.stable_row_offset,
            other.current_input_start == mid.current_input_start,
        ensures
            b.shrunk_view(&other, rows, width, scrollback_limit, seqno),
    {
        let target = if rows > 1 { rows } else { 1 };
        let count = (b.cursor.row - target + 1) as u16;
        assert(b.whole_screen_region() == pre);
        assert(b.whole_screen_scrolled_view(&other, width as u16, count, scrollback_limit, seqno));
    }

    /// Shows `rows` visible rows (at least one) where there were more. A cursor below the new
    /// screen first scrolls the whole screen up until it fits; then the bottom rows are dropped.
    pub(crate) fn shrink_visible_rows(&mut self, rows: u16, width: usize, scrollback_limit: usize, seqno: u64)
        requires
            old(self).wf(),
            old(self).room(0x10000),
            old(self).visible_rows > rows,
            1 <= width <= 0xffff,
        ensures
            old(self).cursor.row < (if rows > 1 { rows } else { 1 }) ==> final(self).current_input_start == old(self).current_input_start,
            final(self).storage_ok(),
            final(self).display_offset <= final(self).history(),
            ({
                let target = if rows > 1 { rows } else { 1 };
                &&& final(self).visible_rows == target
                &&& final(self).cursor.row == if old(self).cursor.row < target {
                    old(self).cursor.row
                } else {
                    (target - 1) as u16
                }
                &&& final(self).cursor.col == old(self).cursor.col
                &&& final(self).saved_cursor.cursor.row == min_int(old(self).saved_cursor.cursor.row as int, target - 1)
                &&& final(self).saved_cursor.cursor.col == old(self).saved_cursor.cursor.col
                &&& final(self).saved_cursor.attrs == old(self).saved_cursor.attrs
            }),
            final(self).stable_row_offset + final(self).len() <= old(self).stable_row_offset + old(self).len() + 0x10000,
            final(self).attrs == old(self).attrs,
            final(self).pending_wrap == old(self).pending_wrap,
            old(self).shrunk_rows(final(self).lines(), rows, width, scrollback_limit, seqno),
            old(self).shrunk_view(final(self), rows, width, scrollback_limit, seqno),
    {
        let target: u16 = if rows > 1 {
            rows
        } else {
            1
        };
        let ghost mid = *old(self);
        let ghost mut pre = *old(self);
        if self.cursor.row >= target {
            let required = self.cursor.row - target + 1;
            let old_visible = self.visible_rows;
            self.scroll_top = 0;
            self.scroll_bottom = old_visible - 1;
            proof {
                pre = *self;
            }
            self.scroll_up_region(width as u16, required, scrollback_limit, seqno);
            proof {
                mid = *self;
                assert(pre == (ScreenBuffer { scroll_top: 0, scroll_bottom: (old(self).visible_rows - 1) as u16, ..*old(self) }));
            }
            self.cursor.row = target - 1;
        }
        let max_row = target - 1;
        if self.saved_cursor.cursor.row > max_row {
            self.saved_cursor.cursor.row = max_row;
        }
        proof {
            self.rows.lemma_wf();
        }
        let shrink = (self.visible_rows - target) as usize;
        let ghost before = self.rows.rows();
        self.rows.rotate(shrink as isize);
        let ghost turned = self.rows.rows();
        self.rows.shrink_visible_lines(target as usize);
        self.visible_rows = target;
        proof {
            assert forall|j: int| 0 <= j < before.len() - shrink implies #[trigger] self.rows.rows()[j] == before[j] by {
                assert(self.rows.rows()[j] == turned[j + shrink]);
            }
            assert(self.rows.rows() =~= before.subrange(0, before.len() - shrink));
            assert(self.lines() =~= lines_of(before).subrange(0, before.len() - shrink));
            assert(mid.lines() == lines_of(before));
            assert(self.display_offset == mid.display_offset && self.stable_row_offset == mid.stable_row_offset);
            assert(self.current_input_start == mid.current_input_start);
            if old(self).cursor.row >= target {
                Self::lemma_shrunk_view(*old(self), pre, mid, *self, rows, width, scrollback_limit, seqno);
            }
        }
    }

    /// The rows `n` that showing `rows` rows (at least one) where there were more leaves: the
    /// rows of the buffer, after the whole screen scrolled up as `scrolled_up_by` says where the
    /// cursor stood below the new screen, without the bottom rows the screen no longer shows.
    pub open spec fn shrunk_rows(&self, n: Seq<LineView>, rows: u16, width: usize, scrollback_limit: usize, seqno: u64) -> bool {
        let target = if rows > 1 { rows } else { 1 };
        let k = self.visible_rows - target;
        if self.cursor.row < target {
            n == self.lines().subrange(0, self.len() - k)
        } else {
            exists|mid: ScreenBuffer| (ScreenBuffer { scroll_top: 0, scroll_bottom: (self.visible_rows - 1) as u16, ..*self }).scrolled_up_by(
                &mid,
                width as u16,
                (self.cursor.row - target + 1) as u16,
                scrollback_limit,
                seqno,
            ) && n == (#[trigger] mid.lines()).subrange(0, mid.len() - k)
        }
    }

    /// This buffer with the whole screen as its scroll region.
    pub open spec fn whole_screen_region(&self) -> Self {
        ScreenBuffer { scroll_top: 0, scroll_bottom: (self.visible_rows - 1) as u16, ..*self }
    }

    /// How far back the view is scrolled, and where the stable numbering of rows starts, in
    /// `other` after showing `rows` rows (at least one) where there were more: as the whole
    /// screen scrolled up, as `scrolled_up_by` says, leaves them where the cursor stood below the
    /// new screen, and as they were otherwise.
    pub open spec fn shrunk_view(&self, other: &Self, rows: u16, width: usize, scrollback_limit: usize, seqno: u64) -> bool {
        let target = if rows > 1 { rows } else { 1 };
        if self.cursor.row < target {
            other.display_offset == self.display_offset && other.stable_row_offset == self.stable_row_offset
        } else {
            self.whole_screen_scrolled_view(other, width as u16, (self.cursor.row - target + 1) as u16, scrollback_limit, seqno)
        }
    }

    /// How far back the view is scrolled, and where the stable numbering of rows starts, in
    /// `other`: as scrolling the whole screen up by `count` lines leaves them, as
    /// `scrolled_up_by` says; and the current input of `other`, reconciled with its rows, starts
    /// where that scroll leaves it, reconciled with the same rows.
    pub open spec fn whole_screen_scrolled_view(&self, other: &Self, cols: u16, count: u16, scrollback_limit: usize, seqno: u64) -> bool {
        exists|scrolled: ScreenBuffer| #[trigger] self.whole_screen_region().scrolled_up_by(&scrolled, cols, count, scrollback_limit, seqno)
            && other.display_offset == scrolled.display_offset && other.stable_row_offset == scrolled.stable_row_offset
            && reconciled(other.rows.rows(), other.current_input_start) == reconciled(other.rows.rows(), scrolled.current_input_start)
    }

    /// Shows `rows` visible rows (at least one) on a screen `cols` columns wide, then makes
    /// the whole screen the scroll region and keeps the saved cursor on it.
    pub(crate) fn resize_height(&mut self, rows: u16, cols: u16, scrollback_limit: usize, seqno: u64)
        requires
            old(self).wf(),
            old(self).room(0x20000),
        ensures
            final(self).wf(),
            ({
                let target = if rows > 1 { rows } else { 1 };
                &&& final(self).visible_rows == target
                &&& final(self).scroll_top == 0
                &&& final(self).scroll_bottom == target - 1
                &&& final(self).saved_cursor.cursor.row < target
                &&& final(self).cursor.col == old(self).cursor.col
                &&& final(self).saved_cursor.cursor.col == old(self).saved_cursor.cursor.col
                &&& final(self).saved_cursor.attrs == old(self).saved_cursor.attrs
                &&& old(self).cursor.row < old(self).visible_rows ==> final(self).cursor.row < target
                &&& target == old(self).visible_rows ==> final(self).cursor == old(self).cursor
                    && final(self).rows == old(self).rows
                    && final(self).stable_row_offset == old(self).stable_row_offset
            }),
            final(self).stable_row_offset + final(self).len() <= old(self).stable_row_offset + old(self).len() + 0x20000,
            final(self).attrs == old(self).attrs,
            final(self).pending_wrap == old(self).pending_wrap,
            old(self).height_changed(final(self).lines(), rows, cols, scrollback_limit, seqno),
            old(self).height_view(final(self), rows, cols, scrollback_limit, seqno),
            !((if rows > 1 { rows } else { 1 }) < old(self).visible_rows && old(self).cursor.row >= (if rows > 1 { rows } else { 1 }))
                ==> final(self).current_input_start == reconciled(final(self).rows.rows(), old(self).current_input_start),
    {
        let target: u16 = if rows > 1 {
            rows
        } else {
            1
        };
        let width: usize = if cols > 1 {
            cols as usize
        } else {
            1
        };
        if self.visible_rows < target {
            self.grow_visible_rows(target, width, scrollback_limit, seqno);
        } else if self.visible_rows > target {
            self.shrink_visible_rows(target, width, scrollback_limit, seqno);
        }
        let ghost rows_after = self.rows;
        self.scroll_top = 0;
        self.scroll_bottom = target - 1;
        if self.saved_cursor.cursor.row > target - 1 {
            self.saved_cursor.cursor.row = target - 1;
        }
        let ghost before_reconcile = self.current_input_start;
        self.reconcile_current_input_start();
        self.clamp_display_offset();
        proof {
            assert(self.rows == rows_after);
            lemma_reconciled_twice(self.rows.rows(), old(self).current_input_start);
        }
    }

    /// Where `other` stands after showing `rows` rows (at least one) on a screen `cols` columns
    /// wide. With more rows the view comes as many rows nearer the bottom, as far as it can, the
    /// stable numbering stays, and the cursor and the saved cursor move down with the rows that
    /// come back from the scrollback; with fewer, the view and the numbering are as
    /// `shrunk_view` says, and a cursor below the new screen goes to its bottom row; with as
    /// many, all stay. The cursor keeps its column, and the saved cursor stays on the screen. The
    /// current input starts on one of the rows, if anywhere: unless the screen scrolled, on the
    /// row it started on, or on the bottom row where that row is gone.
    pub open spec fn height_view(&self, other: &Self, rows: u16, cols: u16, scrollback_limit: usize, seqno: u64) -> bool {
        let target: u16 = if rows > 1 { rows } else { 1 };
        let width: usize = if cols > 1 { cols as usize } else { 1 };
        &&& if target > self.visible_rows {
            let added = target - self.visible_rows;
            &&& other.display_offset == if self.display_offset > added { self.display_offset - added } else { 0 }
            &&& other.stable_row_offset == self.stable_row_offset
            &&& other.cursor.row == min_int(self.cursor.row + min_int(self.history(), added), target - 1)
        } else if target < self.visible_rows {
            &&& self.shrunk_view(other, target, width, scrollback_limit, seqno)
            &&& other.cursor.row == if self.cursor.row < target { self.cursor.row as int } else { target - 1 }
        } else {
            &&& other.display_offset == self.display_offset
            &&& other.stable_row_offset == self.stable_row_offset
            &&& other.cursor.row == self.cursor.row
        }
        &&& other.cursor.col == self.cursor.col
        &&& other.saved_cursor.cursor.row == min_int(
            self.saved_cursor.cursor.row + if target > self.visible_rows { min_int(self.history(), target - self.visible_rows) } else { 0 },
            target - 1,
        )
        &&& other.saved_cursor.cursor.col == self.saved_cursor.cursor.col
        &&& other.saved_cursor.attrs == self.saved_cursor.attrs
        &&& !(target < self.visible_rows && self.cursor.row >= target)
            ==> other.current_input_start == reconciled(other.rows.rows(), self.current_input_start)
        &&& other.current_input_start == reconciled(other.rows.rows(), other.current_input_start)
    }

    /// The rows `n` that showing `rows` rows (at least one) on a screen `cols` columns wide (at
    /// least one) leaves: as `grown_rows` says for more rows, as `shrunk_rows` says for fewer, the
    /// same rows for as many.
    pub open spec fn height_changed(&self, n: Seq<LineView>, rows: u16, cols: u16, scrollback_limit: usize, seqno: u64) -> bool {
        let target: u16 = if rows > 1 { rows } else { 1 };
        let width: usize = if cols > 1 { cols as usize } else { 1 };
        if target > self.visible_rows {
            self.grown_rows(n, target, width, scrollback_limit, seqno)
        } else if target < self.visible_rows {
            self.shrunk_rows(n, target, width, scrollback_limit, seqno)
        } else {
            n == self.lines()
        }
    }
}

impl ScreenBuffer {
    /// The rows `n` that showing `rows` rows on a screen `cols` columns wide leaves, as
    /// `height_changed` says, with the scrollback then cut to `scrollback_limit` rows.
    pub open spec fn height_changed_trimmed(&self, n: Seq<LineView>, rows: u16, cols: u16, scrollback_limit: usize, seqno: u64) -> bool {
        exists|h: Seq<LineView>| #[trigger] self.height_changed(h, rows, cols, scrollback_limit, seqno)
            && n == trimmed_lines(h, (if rows > 1 { rows } else { 1u16 }) as int, scrollback_limit as int)
    }
}

/// The rows `h` with the scrollback above a screen of `visible` rows cut to `limit` rows, the
/// oldest dropped.
pub open spec fn trimmed_lines(h: Seq<LineView>, visible: int, limit: int) -> Seq<LineView> {
    if h.len() <= visible + limit {
        h
    } else {
        h.subrange(h.len() - visible - limit, h.len() as int)
    }
}

/// Where the cursor and the saved cursor stand while rows are rewrapped: the row index and
/// column of each.
pub type Marks = (int, int, int, int);

/// Every row has at most `0xffff` cells and an occupied width within them.
pub open spec fn lines_bounded(ls: Seq<LineView>) -> bool {
    forall|i: int| 0 <= i < ls.len() ==> (#[trigger] ls[i]).0.len() <= 0xffff && ls[i].1 <= ls[i].0.len()
}

/// How many cells of row `i` take part in its logical line: its occupied width, or more where
/// the cursor or the saved cursor stands further right on it.
pub open spec fn segment_len(ls: Seq<LineView>, i: int, m: Marks) -> int {
    let a = ls[i].1 as int;
    let b = if i == m.0 && m.1 > a { m.1 } else { a };
    if i == m.2 && m.3 > b { m.3 } else { b }
}

/// The cells rows `s..e` contribute to their logical line.
pub open spec fn logical_range(ls: Seq<LineView>, s: int, e: int, m: Marks) -> Seq<CellView>
    decreases e - s,
{
    if e <= s {
        Seq::empty()
    } else {
        logical_range(ls, s, e - 1, m) + resize_view(ls[e - 1].0, segment_len(ls, e - 1, m))
    }
}

/// The logical line of rows `s..e`: one blank cell where they contribute none.
pub open spec fn logical_line(ls: Seq<LineView>, s: int, e: int, m: Marks) -> Seq<CellView> {
    let l = logical_range(ls, s, e, m);
    if l.len() == 0 {
        seq![blank_view()]
    } else {
        l
    }
}

/// One past the last row of the logical line that starts at row `i`: the rows after it
/// continue it while they wrap.
pub open spec fn group_end(ls: Seq<LineView>, i: int) -> int
    decreases ls.len() - i,
{
    if i + 1 >= ls.len() || !ls[i].2 {
        i + 1
    } else {
        group_end(ls, i + 1)
    }
}

/// The rows a logical line becomes from its wrapped pieces at `width` columns: all but the
/// last wrap into the next.
pub open spec fn group_lines(segs: Seq<Seq<CellView>>, width: int, seqno: u64) -> Seq<LineView> {
    Seq::new(segs.len(), |k: int| stored_line(normalize_view(segs[k], width), k + 1 < segs.len(), seqno))
}

/// What the rows of `ls` from row `i` on become when their logical lines are wrapped anew at
/// `width` columns.
pub open spec fn rewrap_from(ls: Seq<LineView>, i: int, m: Marks, width: int, seqno: u64) -> Seq<LineView>
    decreases ls.len() - i,
{
    if i < 0 || i >= ls.len() {
        Seq::empty()
    } else {
        let e = group_end(ls, i);
        if e <= i || e > ls.len() {
            Seq::empty()
        } else {
            group_lines(wrap_view(logical_line(ls, i, e, m), width), width, seqno) + rewrap_from(ls, e, m, width, seqno)
        }
    }
}

proof fn lemma_group_end(ls: Seq<LineView>, i: int)
    requires
        0 <= i < ls.len(),
    ensures
        i < group_end(ls, i) <= ls.len(),
    decreases ls.len() - i,
{
    if !(i + 1 >= ls.len() || !ls[i].2) {
        lemma_group_end(ls, i + 1);
    }
}

/// The occupied cells of rows `s..e`.
pub open spec fn occ_sum(ls: Seq<LineView>, s: int, e: int) -> int
    decreases e - s,
{
    if e <= s {
        0
    } else {
        occ_sum(ls, s, e - 1) + ls[e - 1].1
    }
}

/// The columns the marks `m` add to rows `s..e` beyond what those rows occupy.
pub open spec fn mark_extra(m: Marks, s: int, e: int) -> int {
    (if s <= m.0 < e { m.1 } else { 0 }) + (if s <= m.2 < e { m.3 } else { 0 })
}

/// How many rows rewrapping the rows `ls` can give at most, at any width: one per row and one
/// per occupied cell, and as many again as two cursors as far right as a row reaches.
pub open spec fn rewrap_room(ls: Seq<LineView>) -> int {
    occ_sum(ls, 0, ls.len() as int) + ls.len() + 2 * 0xffff
}

proof fn lemma_logical_range_len(ls: Seq<LineView>, s: int, e: int, m: Marks)
    requires
        0 <= s <= e <= ls.len(),
        0 <= m.1,
        0 <= m.3,
    ensures
        logical_range(ls, s, e, m).len() <= occ_sum(ls, s, e) + mark_extra(m, s, e),
    decreases e - s,
{
    if e > s {
        lemma_logical_range_len(ls, s, e - 1, m);
    }
}

/// The occupied cells of a run of rows are no more than those of a longer run around it.
proof fn lemma_occ_sum_within(ls: Seq<LineView>, s: int, e: int, s2: int, e2: int)
    requires
        0 <= s2 <= s <= e <= e2 <= ls.len(),
    ensures
        0 <= occ_sum(ls, s, e) <= occ_sum(ls, s2, e2),
{
    lemma_occ_sum_split(ls, s2, s, e2);
    lemma_occ_sum_split(ls, s, e, e2);
    lemma_occ_sum_nonneg(ls, s2, s);
    lemma_occ_sum_nonneg(ls, e, e2);
    lemma_occ_sum_nonneg(ls, s, e);
}

/// Rows that occupy no cells add up to none.
pub(crate) proof fn lemma_occ_sum_zero(ls: Seq<LineView>, e: int)
    requires
        0 <= e <= ls.len(),
        forall|i: int| 0 <= i < e ==> (#[trigger] ls[i]).1 == 0,
    ensures
        occ_sum(ls, 0, e) == 0,
    decreases e,
{
    if e > 0 {
        lemma_occ_sum_zero(ls, e - 1);
    }
}

/// The occupied cells of a run of rows are no fewer than none.
pub(crate) proof fn lemma_occ_sum_nonneg(ls: Seq<LineView>, s: int, e: int)
    ensures
        0 <= occ_sum(ls, s, e),
    decreases e - s,
{
    if e > s {
        lemma_occ_sum_nonneg(ls, s, e - 1);
    }
}

/// The occupied cells of rows `s..e` are those of `s..k` and of `k..e`.
pub(crate) proof fn lemma_occ_sum_split(ls: Seq<LineView>, s: int, k: int, e: int)
    requires
        s <= k <= e,
    ensures
        occ_sum(ls, s, e) == occ_sum(ls, s, k) + occ_sum(ls, k, e),
    decreases e - k,
{
    if e > k {
        lemma_occ_sum_split(ls, s, k, e - 1);
    }
}

/// Gathers the logical line that starts at row `start`: the cells each of its rows contributes,
/// where each row's cells start in it, and one past its last row.
fn gather_logical(rows: &Vec<Row>, start: usize, ca: usize, cc: usize, sa: usize, sc: usize) -> (r: (Vec<TerminalCell>, Vec<usize>, usize))
    requires
        start < rows@.len(),
        rewrap_room(lines_of(rows@)) <= ROW_LIMIT,
        lines_bounded(lines_of(rows@)),
        cc <= 0xffff,
        sc <= 0xffff,
    ensures
        ({
            let ls = lines_of(rows@);
            let m = (ca as int, cc as int, sa as int, sc as int);
            &&& r.2 == group_end(ls, start as int)
            &&& start < r.2 <= rows@.len()
            &&& views(r.0@) == logical_range(ls, start as int, r.2 as int, m)
            &&& r.1@.len() == r.2 - start
            &&& forall|j: int| 0 <= j < r.1@.len() ==> #[trigger] r.1@[j] == logical_range(ls, start as int, start + j, m).len()
        }),
{
    let ghost ls = lines_of(rows@);
    let ghost m = (ca as int, cc as int, sa as int, sc as int);
    let n = rows.len();
    let mut logical: Vec<TerminalCell> = Vec::new();
    let mut offsets: Vec<usize> = Vec::new();
    let mut index = start;
    proof {
        lemma_group_end(ls, start as int);
    }
    loop
        invariant_except_break
            index < n,
            group_end(ls, start as int) == group_end(ls, index as int),
        invariant
            ls == lines_of(rows@),
            m == (ca as int, cc as int, sa as int, sc as int),
            n == rows@.len(),
            rewrap_room(ls) <= ROW_LIMIT,
            lines_bounded(ls),
            cc <= 0xffff,
            sc <= 0xffff,
            start < index <= n || (index == start && index < n),
            views(logical@) == logical_range(ls, start as int, index as int, m),
            offsets@.len() == index - start,
            forall|j: int| 0 <= j < offsets@.len() ==> #[trigger] offsets@[j] == logical_range(ls, start as int, start + j, m).len(),
        ensures
            group_end(ls, start as int) == index,
        decreases n - index,
    {
        let row = &rows[index];
        let line = row.line();
        proof {
            assert(ls[index as int] == line@);
            assert(views(logical@).len() == logical@.len());
        }
        offsets.push(logical.len());
        let mut seg_len = line.occ();
        if index == ca && cc > seg_len {
            seg_len = cc;
        }
        if index == sa && sc > seg_len {
            seg_len = sc;
        }
        let cells = line.cells_ref();
        proof {
            assert(views(cells@).len() == cells@.len());
        }
        let mut segment = copy_range(cells, 0, cells.len());
        proof {
            assert(views(cells@).subrange(0, cells@.len() as int) =~= views(cells@));
        }
        resize_cells(&mut segment, seg_len);
        let ghost before = logical@;
        let ghost seg = segment@;
        logical.append(&mut segment);
        let wrapped = line.wrapped();
        index = index + 1;
        proof {
            assert(views(logical@) =~= views(before) + views(seg));
            assert(logical_range(ls, start as int, index as int, m) == logical_range(ls, start as int, index - 1, m)
                + resize_view(ls[index - 1].0, segment_len(ls, index - 1, m)));
        }
        if !wrapped || index >= n {
            assert(group_end(ls, index - 1) == index);
            break;
        }
    }
    proof {
        lemma_group_end(ls, start as int);
    }
    (logical, offsets, index)
}

proof fn lemma_segments_count(v: Seq<CellView>, start: int, width: int)
    requires
        0 <= start <= v.len(),
    ensures
        segments_from(v, start, width).len() <= v.len() - start,
    decreases v.len() - start,
{
    if start < v.len() {
        let end = reflow_break_spec(v, start, width);
        assert(start < end <= v.len());
        lemma_segments_count(v, end, width);
    }
}

/// A logical line of `n` cells wraps into at most `n` rows, and at least one.
proof fn lemma_wrap_count(v: Seq<CellView>, width: int)
    requires
        v.len() >= 1,
    ensures
        1 <= wrap_view(v, width).len() <= v.len(),
{
    lemma_segments_count(v, 0, width);
    let end = reflow_break_spec(v, 0, width);
    assert(0 < end <= v.len());
    assert(segments_from(v, 0, width).len() >= 1);
}

impl ScreenBuffer {
    /// Appends to `out` the rows the logical line `logical` wraps into at `width` columns, each
    /// under a fresh identity.
    fn push_group_rows(&mut self, out: &mut Vec<Row>, logical: &Vec<TerminalCell>, width: usize, seqno: u64)
        requires
            logical@.len() + width + 1 <= usize::MAX,
            1 <= width <= 0xffff,
        ensures
            lines_of(final(out)@) == lines_of(old(out)@) + group_lines(wrap_view(views(logical@), width as int), width as int, seqno),
            lines_bounded(lines_of(old(out)@)) ==> lines_bounded(lines_of(final(out)@)),
            *final(self) == (ScreenBuffer { next_row_id: final(self).next_row_id, ..*old(self) }),
    {
        let segments = wrap_logical_row(logical, width);
        let ghost segs = wrap_view(views(logical@), width as int);
        let ghost base = lines_of(out@);
        let count = segments.len();
        let mut k: usize = 0;
        while k < count
            invariant
                count == segments@.len(),
                segs.len() == count,
                forall|i: int| 0 <= i < count ==> views(#[trigger] segments@[i]@) == segs[i],
                k <= count,
                1 <= width <= 0xffff,
                lines_of(out@) == base + group_lines(segs, width as int, seqno).subrange(0, k as int),
                lines_bounded(base) ==> lines_bounded(lines_of(out@)),
                *self == (ScreenBuffer { next_row_id: self.next_row_id, ..*old(self) }),
            decreases count - k,
        {
            let seg = &segments[k];
            proof {
                assert(views(seg@).len() == seg@.len());
            }
            let mut cells = copy_range(seg, 0, seg.len());
            proof {
                assert(views(seg@).subrange(0, seg@.len() as int) =~= views(seg@));
            }
            normalize_cells(&mut cells, width);
            let occ = row_occupied_columns(cells.as_slice());
            proof {
                lemma_occupied_views(cells@);
                super::screen::lemma_occupied_views_le(views(cells@));
            }
            let wrapped = k + 1 < count;
            let id = self.alloc_row_id();
            let ghost cv = views(cells@);
            let row = Row::from_parts(id, BufferRow::from_cells(cells, occ, wrapped, seqno));
            let ghost prev = out@;
            out.push(row);
            proof {
                assert(row.line_view() == stored_line(normalize_view(segs[k as int], width as int), wrapped, seqno));
                assert(lines_of(out@) =~= lines_of(prev).push(row.line_view()));
                assert(group_lines(segs, width as int, seqno).subrange(0, k + 1) =~= group_lines(segs, width as int, seqno).subrange(0, k as int).push(row.line_view()));
            }
            k = k + 1;
        }
        proof {
            assert(group_lines(segs, width as int, seqno).subrange(0, k as int) =~= group_lines(segs, width as int, seqno));
        }
    }
}

/// Where a column of a logical line lands among the rows it wraps into: the row and the column,
/// as `map_col_from` counts them.
pub open spec fn mapped(logical: Seq<CellView>, col: int, width: int) -> (int, int) {
    map_col_from(wrap_view(logical, width), 0, col, width)
}

/// Where the mark at row `abs`, column `col` of `ls` lands when the logical lines from row `i`
/// on are wrapped anew at `width` columns: the row, counted from the first row they become,
/// and the column.
pub open spec fn rewrap_pos(ls: Seq<LineView>, i: int, m: Marks, width: int, abs: int, col: int) -> (int, int)
    decreases ls.len() - i,
{
    if i < 0 || i >= ls.len() {
        (0, col)
    } else {
        let e = group_end(ls, i);
        if e <= i || e > ls.len() {
            (0, col)
        } else if i <= abs < e {
            mapped(logical_line(ls, i, e, m), logical_range(ls, i, abs, m).len() + col, width)
        } else {
            let p = rewrap_pos(ls, e, m, width, abs, col);
            (wrap_view(logical_line(ls, i, e, m), width).len() + p.0, p.1)
        }
    }
}

/// Where the mark at row `abs`, column `col` of `ls` lands when all of `ls` is wrapped anew at
/// `width` columns; a mark below the last row stays at column `col` of the first row.
pub open spec fn rewrap_mark(ls: Seq<LineView>, m: Marks, width: int, abs: int, col: int) -> (int, int) {
    if 0 <= abs < ls.len() {
        rewrap_pos(ls, 0, m, width, abs, col)
    } else {
        (0, col)
    }
}

/// The screen row of absolute row `abs` when the screen starts at absolute row `live`, kept
/// within the rows `0..=last`.
pub open spec fn screen_row(abs: int, live: int, last: int) -> int {
    let r = if abs > live { abs - live } else { 0 };
    if r < last { r } else { last }
}

/// A column kept within `0..width`.
pub open spec fn within_width(col: int, width: int) -> int {
    if col < width - 1 { col } else { width - 1 }
}

impl ScreenBuffer {
    /// The cursor and the saved cursor stand where the marks `m` of the rows `ls` land when
    /// `ls` is wrapped anew at `width` columns into `produced` rows, on a screen whose last
    /// `visible_rows` rows (blank rows added on top where fewer were produced) are live.
    pub open spec fn cursor_placed(&self, ls: Seq<LineView>, m: Marks, width: int, produced: int) -> bool {
        let total = if produced < self.visible_rows { self.visible_rows as int } else { produced };
        let live = total - self.visible_rows;
        let last = self.visible_rows - 1;
        &&& self.cursor.row == screen_row(rewrap_mark(ls, m, width, m.0, m.1).0, live, last)
        &&& self.cursor.col == within_width(rewrap_mark(ls, m, width, m.0, m.1).1, width)
        &&& self.saved_cursor.cursor.row == screen_row(rewrap_mark(ls, m, width, m.2, m.3).0, live, last)
        &&& self.saved_cursor.cursor.col == within_width(rewrap_mark(ls, m, width, m.2, m.3).1, width)
    }
}

impl ScreenBuffer {
    /// The row the current input starts on once this buffer is rewrapped, with marks `m` at
    /// `width` columns, into `other`: the row of `other` where the first row of the input
    /// lands, where `other` has one there.
    pub open spec fn rewrapped_input_start(&self, other: &Self, m: Marks, width: int) -> Option<u64> {
        match self.current_input_start {
            Some(id) => match first_with_id(self.rows.rows(), id, 0) {
                Some(k) => {
                    let a = rewrap_mark(self.lines(), m, width, k, 0).0;
                    if 0 <= a < other.len() { Some(other.rows.rows()[a].id_spec()) } else { None }
                },
                None => None,
            },
            None => None,
        }
    }

    /// How far back `other`, this buffer rewrapped with marks `m` at `width` columns, shows:
    /// not at all where this buffer did not; else so that the row the top of the view lands on
    /// is the top of the view, as far back as the scrollback reaches.
    pub open spec fn rewrapped_display_offset(&self, other: &Self, m: Marks, width: int) -> int {
        if self.display_offset == 0 {
            0
        } else {
            let top = min_int(self.history() - self.display_offset, self.len() - 1);
            let a = rewrap_mark(self.lines(), m, width, top, 0).0;
            if other.history() > a { other.history() - a } else { 0 }
        }
    }
}

impl ScreenBuffer {
    /// The index of the first of `rows` with identity `id`.
    fn position_of(rows: &Vec<Row>, id: u64) -> (r: Option<usize>)
        ensures
            r matches Some(i) ==> i < rows@.len() && rows@[i as int].id_spec() == id,
            r == (match first_with_id(rows@, id, 0) {
                Some(i) => Some(i as usize),
                None => None::<usize>,
            }),
    {
        let mut i: usize = 0;
        while i < rows.len()
            invariant
                i <= rows@.len(),
                first_with_id(rows@, id, 0) == first_with_id(rows@, id, i as int),
            decreases rows@.len() - i,
        {
            if rows[i].id() == id {
                return Some(i);
            }
            i = i + 1;
        }
        None
    }

    /// Wraps every logical line anew at `width` columns. Each logical line is made of the rows
    /// that wrap into one another; each row contributes its occupied cells, and more where the
    /// cursor or the saved cursor stands further right. The cursor, the saved cursor, the row
    /// the input started on and the top of a scrolled-back viewport keep their place in the
    /// text. Where fewer rows than the screen remain, blank rows are added on top.
    #[verifier::rlimit(60)]
    #[verifier::spinoff_prover]
    pub(crate) fn rewrap_rows(&mut self, width: usize, seqno: u64)
        requires
            old(self).wf(),
            1 <= width <= 0xffff,
            old(self).stable_row_offset + rewrap_room(old(self).lines()) + 0x10000 <= ROW_LIMIT,
            lines_bounded(old(self).lines()),
        ensures
            final(self).wf(),
            ({
                let ls = old(self).lines();
                let live = old(self).live_start_spec();
                let m = (
                    live + old(self).cursor.row,
                    old(self).cursor.col as int,
                    live + old(self).saved_cursor.cursor.row,
                    old(self).saved_cursor.cursor.col as int,
                );
                let out = rewrap_from(ls, 0, m, width as int, seqno);
                &&& final(self).len() == if out.len() < old(self).visible_rows { old(self).visible_rows as int } else { out.len() as int }
                &&& final(self).lines().subrange(final(self).len() - out.len(), final(self).len()) == out
                &&& forall|i: int| 0 <= i < final(self).len() - out.len() ==>
                    is_blank_line(#[trigger] final(self).lines()[i], width as int, seqno)
                &&& final(self).cursor.row == screen_row(
                    rewrap_mark(ls, m, width as int, m.0, m.1).0,
                    final(self).len() - final(self).visible_rows,
                    final(self).visible_rows - 1,
                )
                &&& final(self).cursor.col == within_width(rewrap_mark(ls, m, width as int, m.0, m.1).1, width as int)
                &&& final(self).saved_cursor.cursor.row == screen_row(
                    rewrap_mark(ls, m, width as int, m.2, m.3).0,
                    final(self).len() - final(self).visible_rows,
                    final(self).visible_rows - 1,
                )
                &&& final(self).saved_cursor.cursor.col == within_width(rewrap_mark(ls, m, width as int, m.2, m.3).1, width as int)
                &&& final(self).current_input_start == old(self).rewrapped_input_start(final(self), m, width as int)
                &&& final(self).display_offset == old(self).rewrapped_display_offset(final(self), m, width as int)
            }),
            lines_bounded(final(self).lines()),
            final(self).visible_rows == old(self).visible_rows,
            final(self).stable_row_offset == old(self).stable_row_offset,
            final(self).cursor.col < width,
            final(self).cursor.row < final(self).visible_rows,
            final(self).saved_cursor.cursor.col < width,
            final(self).saved_cursor.cursor.row < final(self).visible_rows,
            final(self).saved_cursor.attrs == old(self).saved_cursor.attrs,
            final(self).attrs == old(self).attrs,
            final(self).scroll_top == old(self).scroll_top,
            final(self).scroll_bottom == old(self).scroll_bottom,
            !final(self).pending_wrap,
            old(self).display_offset == 0 ==> final(self).display_offset == 0,
            final(self).len() <= rewrap_room(old(self).lines()),
    {
        let old_display_offset = self.display_offset;
        let viewport_top = self.viewport_top();
        let visible = self.visible_rows as usize;
        let ghost ls = self.lines();
        let old_rows = self.rows.take_all();
        proof {
            assert(lines_of(old_rows@) == ls);
        }
        let n = old_rows.len();
        let live = n - visible;
        let cursor_abs = live + self.cursor.row as usize;
        let cursor_col = self.cursor.col as usize;
        let saved_abs = live + self.saved_cursor.cursor.row as usize;
        let saved_col = self.saved_cursor.cursor.col as usize;
        let ghost m = (cursor_abs as int, cursor_col as int, saved_abs as int, saved_col as int);
        let input_start_abs = match self.current_input_start {
            Some(id) => Self::position_of(&old_rows, id),
            None => None,
        };
        let viewport_abs = {
            let d = viewport_top - self.stable_row_offset;
            if d < n - 1 {
                d
            } else {
                n - 1
            }
        };
        let mut new_rows: Vec<Row> = Vec::new();
        let mut cursor_new_abs: usize = 0;
        let mut cursor_new_col: usize = cursor_col;
        let mut saved_new_abs: usize = 0;
        let mut saved_new_col: usize = saved_col;
        let mut input_start_new_abs: Option<usize> = None;
        let mut viewport_new_abs: usize = 0;
        let mut index: usize = 0;
        let ghost total = rewrap_from(ls, 0, m, width as int, seqno);
        let ghost mid = *self;
        while index < n
            invariant
                *self == (ScreenBuffer { next_row_id: self.next_row_id, ..mid }),
                ls == lines_of(old_rows@),
                n == old_rows@.len(),
                n >= visible,
                rewrap_room(ls) <= ROW_LIMIT,
                mid.stable_row_offset + rewrap_room(ls) + 0x10000 <= ROW_LIMIT,
                lines_bounded(ls),
                m == (cursor_abs as int, cursor_col as int, saved_abs as int, saved_col as int),
                cursor_col <= 0xffff,
                saved_col <= 0xffff,
                1 <= width <= 0xffff,
                index <= n,
                new_rows@.len() <= occ_sum(ls, 0, index as int) + index + mark_extra(m, 0, index as int),
                lines_of(new_rows@) + rewrap_from(ls, index as int, m, width as int, seqno) == total,
                lines_bounded(lines_of(new_rows@)),
                cursor_new_abs <= new_rows@.len(),
                saved_new_abs <= new_rows@.len(),
                viewport_new_abs <= new_rows@.len(),
                cursor_abs >= n ==> cursor_new_abs == 0 && cursor_new_col == cursor_col,
                saved_abs >= n ==> saved_new_abs == 0 && saved_new_col == saved_col,
                index <= cursor_abs < n ==> rewrap_pos(ls, 0, m, width as int, m.0, m.1) == (
                    new_rows@.len() + rewrap_pos(ls, index as int, m, width as int, m.0, m.1).0,
                    rewrap_pos(ls, index as int, m, width as int, m.0, m.1).1,
                ),
                cursor_abs < index ==> (cursor_new_abs as int, cursor_new_col as int) == rewrap_pos(ls, 0, m, width as int, m.0, m.1),
                index <= saved_abs < n ==> rewrap_pos(ls, 0, m, width as int, m.2, m.3) == (
                    new_rows@.len() + rewrap_pos(ls, index as int, m, width as int, m.2, m.3).0,
                    rewrap_pos(ls, index as int, m, width as int, m.2, m.3).1,
                ),
                saved_abs < index ==> (saved_new_abs as int, saved_new_col as int) == rewrap_pos(ls, 0, m, width as int, m.2, m.3),
                viewport_abs < n,
                index <= viewport_abs ==> rewrap_pos(ls, 0, m, width as int, viewport_abs as int, 0) == (
                    new_rows@.len() + rewrap_pos(ls, index as int, m, width as int, viewport_abs as int, 0).0,
                    rewrap_pos(ls, index as int, m, width as int, viewport_abs as int, 0).1,
                ),
                viewport_abs < index ==> viewport_new_abs == rewrap_pos(ls, 0, m, width as int, viewport_abs as int, 0).0,
                input_start_abs matches Some(k) ==> k < n,
                input_start_abs is None ==> input_start_new_abs is None,
                input_start_abs matches Some(k) ==> index <= k ==> input_start_new_abs is None
                    && rewrap_pos(ls, 0, m, width as int, k as int, 0) == (
                        new_rows@.len() + rewrap_pos(ls, index as int, m, width as int, k as int, 0).0,
                        rewrap_pos(ls, index as int, m, width as int, k as int, 0).1,
                    ),
                input_start_abs matches Some(k) ==> k < index ==> (input_start_new_abs matches Some(a)
                    && a == rewrap_pos(ls, 0, m, width as int, k as int, 0).0),
            decreases n - index,
        {
            let (mut logical, offsets, end) = gather_logical(&old_rows, index, cursor_abs, cursor_col, saved_abs, saved_col);
            let ghost group = logical_line(ls, index as int, end as int, m);
            if logical.len() == 0 {
                logical.push(TerminalCell::blank());
                proof {
                    assert(views(logical@) =~= seq![blank_view()]);
                }
            }
            proof {
                assert(views(logical@) == group);
                assert(views(logical@).len() == logical@.len());
                lemma_wrap_count(group, width as int);
                lemma_logical_range_len(ls, index as int, end as int, m);
                lemma_occ_sum_within(ls, index as int, end as int, 0, n as int);
                lemma_occ_sum_split(ls, 0, index as int, end as int);
                assert(logical@.len() <= occ_sum(ls, index as int, end as int) + mark_extra(m, index as int, end as int) + 1);
            }
            let group_start = new_rows.len();
            let ghost before = lines_of(new_rows@);
            self.push_group_rows(&mut new_rows, &logical, width, seqno);
            proof {
                assert(lines_of(new_rows@).len() == new_rows@.len());
                assert(new_rows@.len() == group_start + wrap_view(group, width as int).len());
                assert(new_rows@.len() <= occ_sum(ls, 0, end as int) + end + mark_extra(m, 0, end as int));
                lemma_occ_sum_within(ls, 0, end as int, 0, n as int);
                assert(new_rows@.len() <= rewrap_room(ls));
                assert(rewrap_from(ls, index as int, m, width as int, seqno) == group_lines(wrap_view(group, width as int), width as int, seqno)
                    + rewrap_from(ls, end as int, m, width as int, seqno));
                assert(lines_of(new_rows@) + rewrap_from(ls, end as int, m, width as int, seqno) =~= before
                    + rewrap_from(ls, index as int, m, width as int, seqno));
            }
            proof {
                if cursor_abs >= index && cursor_abs < end {
                    lemma_logical_range_len(ls, index as int, cursor_abs as int, m);
                    lemma_occ_sum_within(ls, index as int, cursor_abs as int, 0, n as int);
                }
                if saved_abs >= index && saved_abs < end {
                    lemma_logical_range_len(ls, index as int, saved_abs as int, m);
                    lemma_occ_sum_within(ls, index as int, saved_abs as int, 0, n as int);
                }
            }
            if cursor_abs >= index && cursor_abs < end {
                let logical_col = offsets[cursor_abs - index] + cursor_col;
                let (row_offset, col) = map_logical_col_to_rows(&logical, logical_col, width);
                proof {
                    lemma_mapped_row(group, logical_col as int, width as int);
                }
                cursor_new_abs = group_start + row_offset;
                cursor_new_col = col;
            }
            if saved_abs >= index && saved_abs < end {
                let logical_col = offsets[saved_abs - index] + saved_col;
                let (row_offset, col) = map_logical_col_to_rows(&logical, logical_col, width);
                proof {
                    lemma_mapped_row(group, logical_col as int, width as int);
                }
                saved_new_abs = group_start + row_offset;
                saved_new_col = col;
            }
            if let Some(input_abs) = input_start_abs {
                if input_abs >= index && input_abs < end {
                    let logical_col = offsets[input_abs - index];
                    let (row_offset, _col) = map_logical_col_to_rows(&logical, logical_col, width);
                    proof {
                        lemma_mapped_row(group, logical_col as int, width as int);
                    }
                    input_start_new_abs = Some(group_start + row_offset);
                }
            }
            if viewport_abs >= index && viewport_abs < end {
                let logical_col = offsets[viewport_abs - index];
                let (row_offset, _col) = map_logical_col_to_rows(&logical, logical_col, width);
                proof {
                    lemma_mapped_row(group, logical_col as int, width as int);
                }
                viewport_new_abs = group_start + row_offset;
            }
            index = end;
        }
        proof {
            assert(lines_of(new_rows@) =~= total);
            lemma_occ_sum_nonneg(ls, 0, n as int);
        }
        let produced = new_rows.len();
        self.rows.replace_inner(new_rows);
        if produced < visible {
            self.fill_blank_rows(visible - produced, width, seqno);
        }
        proof {
            let fin = self.lines();
            let k = self.len() - total.len();
            assert forall|i: int| 0 <= i < fin.len() implies (#[trigger] fin[i]).0.len() <= 0xffff && fin[i].1 <= fin[i].0.len() by {
                if i >= k {
                    assert(fin[i] == fin.subrange(k, self.len())[i - k]);
                    assert(fin[i] == total[i - k]);
                }
            }
        }
        let live_start = self.live_start();
        let max_row = visible - 1;
        let r = cursor_new_abs.saturating_sub(live_start);
        self.cursor.row = if r < max_row {
            r as u16
        } else {
            max_row as u16
        };
        self.cursor.col = if cursor_new_col < width - 1 {
            cursor_new_col as u16
        } else {
            (width - 1) as u16
        };
        let r = saved_new_abs.saturating_sub(live_start);
        self.saved_cursor.cursor.row = if r < max_row {
            r as u16
        } else {
            max_row as u16
        };
        self.saved_cursor.cursor.col = if saved_new_col < width - 1 {
            saved_new_col as u16
        } else {
            (width - 1) as u16
        };
        self.current_input_start = match input_start_new_abs {
            Some(absolute) => match self.rows.get(absolute) {
                Some(row) => Some(row.id()),
                None => None,
            },
            None => None,
        };
        proof {
            assert(old_rows@ == old(self).rows.rows());
            if let Some(id) = old(self).current_input_start {
                if let Some(k) = first_with_id(old_rows@, id, 0) {
                    super::screen::lemma_first_with_id(old_rows@, id, 0);
                }
            }
        }
        self.display_offset = if old_display_offset == 0 {
            0
        } else {
            self.history_size().saturating_sub(viewport_new_abs)
        };
        self.pending_wrap = false;
        self.clamp_display_offset();
    }
}

/// A column of a logical line lands on one of the rows it wraps into.
proof fn lemma_mapped_row(v: Seq<CellView>, col: int, width: int)
    requires
        v.len() >= 1,
        col >= 0,
    ensures
        0 <= mapped(v, col, width).0 < wrap_view(v, width).len(),
        mapped(v, col, width).1 >= 0,
{
    lemma_wrap_count(v, width);
    lemma_map_col_from(wrap_view(v, width), 0, col, width);
}

proof fn lemma_map_col_from(segs: Seq<Seq<CellView>>, i: int, remaining: int, width: int)
    requires
        segs.len() >= 1,
        0 <= i,
        remaining >= 0,
    ensures
        0 <= map_col_from(segs, i, remaining, width).0 < segs.len(),
        map_col_from(segs, i, remaining, width).1 >= 0,
    decreases segs.len() - i,
{
    if i < segs.len() {
        let span = segs[i].len() as int;
        let is_last = i + 1 == segs.len();
        if !(remaining < span || (is_last && remaining <= span)) {
            lemma_map_col_from(segs, i + 1, if remaining >= span { remaining - span } else { 0 }, width);
        }
    }
}

/// A row kept as it is at a new width: cut to `width` and repaired where the screen narrows,
/// padded with blank cells where it widens; its occupied width is measured again.
pub open spec fn refit_line(line: LineView, old_width: int, width: int, seqno: u64) -> LineView {
    let v = if width < old_width {
        normalize_view(if line.0.len() > width { line.0.subrange(0, width) } else { line.0 }, width)
    } else if line.0.len() < width {
        resize_view(line.0, width)
    } else {
        line.0
    };
    stored_line(v, line.2, seqno)
}

impl ScreenBuffer {
    /// Brings every row to the width `width` without rewrapping, as `refit_line` says, and keeps
    /// the cursors on the screen.
    pub(crate) fn refit_rows(&mut self, old_width: usize, width: usize, seqno: u64)
        requires
            old(self).wf(),
            1 <= width,
        ensures
            final(self).wf(),
            final(self).len() == old(self).len(),
            forall|i: int| 0 <= i < final(self).len() ==> #[trigger] final(self).lines()[i] == refit_line(old(self).lines()[i], old_width as int, width as int, seqno),
            final(self).cursor.row == old(self).cursor.row,
            final(self).cursor.col == if old(self).cursor.col < width - 1 { old(self).cursor.col } else { (width - 1) as u16 },
            final(self).saved_cursor.cursor.row == old(self).saved_cursor.cursor.row,
            final(self).saved_cursor.cursor.col == if old(self).saved_cursor.cursor.col < width - 1 {
                old(self).saved_cursor.cursor.col
            } else {
                (width - 1) as u16
            },
            final(self).saved_cursor.attrs == old(self).saved_cursor.attrs,
            !final(self).pending_wrap,
            final(self).visible_rows == old(self).visible_rows,
            final(self).stable_row_offset == old(self).stable_row_offset,
            final(self).display_offset == old(self).display_offset,
            final(self).attrs == old(self).attrs,
            final(self).scroll_top == old(self).scroll_top,
            final(self).scroll_bottom == old(self).scroll_bottom,
            final(self).current_input_start == old(self).current_input_start,
            width <= 0xffff && lines_bounded(old(self).lines()) ==> lines_bounded(final(self).lines()),
    {
        if self.cursor.col as usize > width - 1 {
            self.cursor.col = (width - 1) as u16;
        }
        if self.saved_cursor.cursor.col as usize > width - 1 {
            self.saved_cursor.cursor.col = (width - 1) as u16;
        }
        self.pending_wrap = false;
        let ghost start = *self;
        let n = self.rows.len();
        let mut i: usize = 0;
        while i < n
            invariant
                n == self.len(),
                self.wf(),
                i <= n,
                1 <= width,
                *self == (ScreenBuffer { rows: self.rows, ..start }),
                self.len() == old(self).len(),
                forall|j: int| 0 <= j < i ==> #[trigger] self.lines()[j] == refit_line(old(self).lines()[j], old_width as int, width as int, seqno),
                forall|j: int| i <= j < n ==> #[trigger] self.lines()[j] == old(self).lines()[j],
            decreases n - i,
        {
            let line = self.line_at(i);
            let cells_ref = line.cells_ref();
            proof {
                assert(views(cells_ref@).len() == cells_ref@.len());
            }
            let mut cells = copy_range(cells_ref, 0, cells_ref.len());
            proof {
                assert(views(cells_ref@).subrange(0, cells_ref@.len() as int) =~= views(cells_ref@));
            }
            let wrapped = line.wrapped();
            let ghost v0 = views(cells@);
            if width < old_width {
                cells.truncate(width);
                proof {
                    assert(views(cells@) =~= if v0.len() > width { v0.subrange(0, width as int) } else { v0 });
                }
                normalize_cells(&mut cells, width);
            } else if cells.len() < width {
                resize_cells(&mut cells, width);
            }
            let occ = row_occupied_columns(cells.as_slice());
            proof {
                lemma_occupied_views(cells@);
                super::screen::lemma_occupied_views_le(views(cells@));
            }
            let ghost before = self.lines();
            self.set_row(i, cells, occ, wrapped, seqno);
            proof {
                assert(self.lines()[i as int] == refit_line(old(self).lines()[i as int], old_width as int, width as int, seqno));
            }
            i = i + 1;
        }
        proof {
            if width <= 0xffff && lines_bounded(old(self).lines()) {
                assert forall|j: int| 0 <= j < self.len() implies (#[trigger] self.lines()[j]).0.len() <= 0xffff
                    && self.lines()[j].1 <= self.lines()[j].0.len() by {
                    let l = old(self).lines()[j];
                    assert(self.lines()[j] == refit_line(l, old_width as int, width as int, seqno));
                    super::line::lemma_normalize_len(if l.0.len() > width { l.0.subrange(0, width as int) } else { l.0 }, width as int);
                    super::screen::lemma_occupied_views_le(self.lines()[j].0);
                }
            }
        }
    }
}

impl ScreenBuffer {
    /// What `other` is after the buffer `self` is taken from `old_cols` to `new_cols` columns
    /// (each at least one), rewrapping its logical lines when `allow_rewrap` holds and refitting
    /// each row otherwise, as `resize_width` says.
    pub open spec fn width_changed(&self, other: &Self, old_cols: u16, new_cols: u16, seqno: u64, allow_rewrap: bool) -> bool {
        &&& other.wf()
        &&& lines_bounded(other.lines())
        &&& other.visible_rows == self.visible_rows
        &&& other.stable_row_offset == self.stable_row_offset
        &&& other.attrs == self.attrs
        &&& other.saved_cursor.attrs == self.saved_cursor.attrs
        &&& other.len() <= rewrap_room(self.lines())
        &&& {
            let old_width = if old_cols > 1 { old_cols as int } else { 1 };
            let width = if new_cols > 1 { new_cols as int } else { 1 };
            &&& old_width == width ==> *other == (ScreenBuffer {
                display_offset: other.display_offset,
                ..*self
            }) && other.display_offset == self.display_offset
            &&& old_width != width ==> {
                &&& other.cursor.col < width
                &&& other.saved_cursor.cursor.col < width
                &&& !other.pending_wrap
                &&& other.scroll_top == self.scroll_top
                &&& other.scroll_bottom == self.scroll_bottom
            }
            &&& (old_width != width && !allow_rewrap) ==> {
                &&& other.len() == self.len()
                &&& forall|i: int| 0 <= i < other.len() ==> #[trigger] other.lines()[i]
                    == refit_line(self.lines()[i], old_width, width, seqno)
                &&& other.cursor.row == self.cursor.row
                &&& other.cursor.col == within_width(self.cursor.col as int, width)
                &&& other.saved_cursor.cursor.row == self.saved_cursor.cursor.row
                &&& other.saved_cursor.cursor.col == within_width(self.saved_cursor.cursor.col as int, width)
                &&& other.display_offset == self.display_offset
                &&& other.current_input_start == self.current_input_start
            }
            &&& (old_width != width && allow_rewrap) ==> {
                let live = self.live_start_spec();
                let m = (
                    live + self.cursor.row,
                    self.cursor.col as int,
                    live + self.saved_cursor.cursor.row,
                    self.saved_cursor.cursor.col as int,
                );
                let out = rewrap_from(self.lines(), 0, m, width, seqno);
                &&& other.len() == if out.len() < self.visible_rows { self.visible_rows as int } else { out.len() as int }
                &&& other.lines().subrange(other.len() - out.len(), other.len()) == out
                &&& forall|i: int| 0 <= i < other.len() - out.len() ==>
                    is_blank_line(#[trigger] other.lines()[i], width, seqno)
                &&& other.cursor.row < other.visible_rows
                &&& other.cursor.row == screen_row(
                    rewrap_mark(self.lines(), m, width, m.0, m.1).0,
                    other.len() - other.visible_rows,
                    other.visible_rows - 1,
                )
                &&& other.cursor.col == within_width(rewrap_mark(self.lines(), m, width, m.0, m.1).1, width)
                &&& other.saved_cursor.cursor.row == screen_row(
                    rewrap_mark(self.lines(), m, width, m.2, m.3).0,
                    other.len() - other.visible_rows,
                    other.visible_rows - 1,
                )
                &&& other.saved_cursor.cursor.col == within_width(rewrap_mark(self.lines(), m, width, m.2, m.3).1, width)
                &&& other.current_input_start == self.rewrapped_input_start(other, m, width)
                &&& other.display_offset == self.rewrapped_display_offset(other, m, width)
            }
        }
    }

    /// Where `other` stands, as `height_view` says it (the view, the stable numbering, the
    /// cursors and the current input), after showing `rows` rows on a screen `cols` columns wide
    /// and then cutting the scrollback to `limit` rows, as `scrollback_trimmed` says.
    pub open spec fn heightened_view(&self, other: &Self, rows: u16, cols: u16, limit: usize, seqno: u64) -> bool {
        exists|h: ScreenBuffer| #[trigger] self.height_view(&h, rows, cols, limit, seqno) && h.scrollback_trimmed(other, limit)
    }

    /// Where `other` stands after taking this buffer to `cols` columns, rewrapping, as
    /// `width_changed` says, and then to `rows` rows, as `heightened_view` says.
    pub open spec fn rewrapped_heightened_view(&self, other: &Self, old_cols: u16, rows: u16, cols: u16, limit: usize, seqno: u64) -> bool {
        exists|w: ScreenBuffer| #[trigger] self.width_changed(&w, old_cols, cols, seqno, true) && w.heightened_view(other, rows, cols, limit, seqno)
    }

    /// `other` is this buffer taken to `cols` columns, rewrapping, and then with its scrollback
    /// cut to `limit` rows.
    pub open spec fn rewrapped_and_trimmed(&self, other: &Self, old_cols: u16, cols: u16, limit: usize, seqno: u64) -> bool {
        exists|mid: ScreenBuffer| #[trigger] self.width_changed(&mid, old_cols, cols, seqno, true)
            && mid.scrollback_trimmed(other, limit)
    }

    /// The rows `n` are those of `self` taken to `cols` columns, rewrapping, then to `rows` rows
    /// with at most `limit` rows of scrollback, and then cut to that scrollback.
    pub open spec fn rewrapped_then_heightened(&self, n: Seq<LineView>, old_cols: u16, rows: u16, cols: u16, limit: usize, seqno: u64) -> bool {
        exists|mid: ScreenBuffer, h: Seq<LineView>|
            #![trigger self.width_changed(&mid, old_cols, cols, seqno, true), mid.height_changed(h, rows, cols, limit, seqno)]
            self.width_changed(&mid, old_cols, cols, seqno, true) && mid.height_changed(h, rows, cols, limit, seqno)
                && n == trimmed_lines(h, rows as int, limit as int)
    }

    /// The rows `n` are those of `self` taken to `cols` columns, each row refitted, then to
    /// `rows` rows with no scrollback.
    pub open spec fn refitted_then_heightened(&self, n: Seq<LineView>, old_cols: u16, rows: u16, cols: u16, seqno: u64) -> bool {
        exists|mid: ScreenBuffer| #[trigger] self.width_changed(&mid, old_cols, cols, seqno, false)
            && mid.height_changed(n, rows, cols, 0, seqno)
    }

    /// Takes the buffer from `old_cols` to `new_cols` columns (each at least one): rewrapping
    /// its logical lines where `allow_rewrap` is on, as `rewrap_rows` does, and otherwise
    /// cutting or padding each row, as `refit_rows` does.
    pub(crate) fn resize_width(&mut self, old_cols: u16, new_cols: u16, seqno: u64, allow_rewrap: bool)
        requires
            old(self).wf(),
            old(self).stable_row_offset + rewrap_room(old(self).lines()) + 0x10000 <= ROW_LIMIT,
            lines_bounded(old(self).lines()),
        ensures
            old(self).width_changed(final(self), old_cols, new_cols, seqno, allow_rewrap),
    {
        proof {
            lemma_occ_sum_nonneg(self.lines(), 0, self.len() as int);
        }
        let old_width: usize = if old_cols > 1 {
            old_cols as usize
        } else {
            1
        };
        let width: usize = if new_cols > 1 {
            new_cols as usize
        } else {
            1
        };
        if old_width == width || self.rows.is_empty() {
            self.clamp_display_offset();
            return;
        }
        if !allow_rewrap {
            self.refit_rows(old_width, width, seqno);
            self.clamp_display_offset();
            return;
        }
        self.rewrap_rows(width, seqno);
    }
}

} // verus!
