//! One screen buffer: its rows with scrollback, cursor, scroll region and viewport.

use super::cells::{blank_view, default_attrs, CellAttributes, CellView, TerminalCell};
use super::line::{
    clear_overlap, clear_overlap_view, copy_range, find_combining_target, lemma_resize_view_full, normalize_cells,
    normalize_from, normalize_step, normalize_view, plain_cells, resize_cells, resize_view, row_occupied_columns, text_range,
    text_view, views,
};
use super::width::char_width;
use super::StableRowIndex;
use crate::grid::storage::{rows_of, swap_seq, MAX_CACHE_SIZE};
use crate::grid::{Line, RowStorage};
use vstd::prelude::*;

verus! {

/// A bound on the rows a buffer holds and on the stable indexes it hands out, that leaves room
/// for the arithmetic on them.
pub const ROW_LIMIT: usize = usize::MAX / 2 - 0x10_0000;

/// What a row holds: its cells, its occupied width, whether it wraps into the next row and the
/// sequence number of its last change.
pub type LineView = (Seq<CellView>, usize, bool, u64);

/// A row of the terminal as callers read it.
#[derive(Debug, PartialEq, Eq)]
pub struct BufferRow {
    pub(crate) cells: Vec<TerminalCell>,
    pub(crate) occ: usize,
    pub(crate) wrapped: bool,
    pub(crate) seqno: u64,
}

impl View for BufferRow {
    type V = LineView;

    closed spec fn view(&self) -> LineView {
        (views(self.cells@), self.occ, self.wrapped, self.seqno)
    }
}

/// A row of `n` blank cells that continues nowhere.
pub open spec fn blank_cells(n: int) -> Seq<CellView> {
    Seq::new(n as nat, |_i: int| blank_view())
}

/// Whether `v` is a row of at least `width` blank cells, unoccupied, not wrapped, changed at `seqno`.
pub open spec fn is_blank_line(v: LineView, width: int, seqno: u64) -> bool {
    &&& v.0.len() >= width
    &&& forall|i: int| 0 <= i < v.0.len() ==> #[trigger] v.0[i] == blank_view()
    &&& v.1 == 0
    &&& !v.2
    &&& v.3 == seqno
}

impl BufferRow {
    /// The cell at `col`, if the row reaches that far.
    pub fn cell(&self, col: u16) -> (r: Option<&TerminalCell>)
        ensures
            col < self@.0.len() ==> (r matches Some(c) && c@ == self@.0[col as int]),
            col >= self@.0.len() ==> r is None,
    {
        if (col as usize) < self.cells.len() {
            Some(&self.cells[col as usize])
        } else {
            None
        }
    }

    /// Whether the row continues in the next one.
    pub fn wrapped(&self) -> (r: bool)
        ensures
            r == self@.2,
    {
        self.wrapped
    }

    /// The sequence number of the last change to the row.
    pub fn seqno(&self) -> (r: u64)
        ensures
            r == self@.3,
    {
        self.seqno
    }

    /// The text of columns `start..end`: a space for each empty cell or column past the end, and
    /// nothing for the right half of a wide character.
    pub fn text_range(&self, start: u16, end: u16) -> (r: String)
        ensures
            r@ == text_view(self@.0, start as int, end as int),
    {
        text_range(&self.cells, start, end)
    }

    /// The cells of the row.
    pub(crate) fn cells_ref(&self) -> (r: &Vec<TerminalCell>)
        ensures
            views(r@) == self@.0,
    {
        &self.cells
    }

    /// The occupied width of the row.
    pub(crate) fn occ(&self) -> (r: usize)
        ensures
            r == self@.1,
    {
        self.occ
    }

    pub(crate) fn from_cells(cells: Vec<TerminalCell>, occ: usize, wrapped: bool, seqno: u64) -> (r: Self)
        ensures
            r@ == (views(cells@), occ, wrapped, seqno),
    {
        Self { cells, occ, wrapped, seqno }
    }
}

/// `n` blank cells.
fn blank_vec(n: usize) -> (r: Vec<TerminalCell>)
    ensures
        views(r@) == blank_cells(n as int),
{
    let mut v: Vec<TerminalCell> = Vec::with_capacity(n);
    let mut i: usize = 0;
    while i < n
        invariant
            i <= n,
            views(v@) == blank_cells(i as int),
        decreases n - i,
    {
        let ghost prev = v@;
        v.push(TerminalCell::blank());
        proof {
            assert(views(v@) =~= views(prev).push(blank_view()));
            assert(views(v@) =~= blank_cells(i + 1));
        }
        i = i + 1;
    }
    v
}

/// A row with the identity used to find it again after the rows move.
#[derive(Debug, PartialEq, Eq)]
pub struct Row {
    pub(crate) id: u64,
    pub(crate) line: BufferRow,
}

impl Row {
    /// The identity of the row.
    pub closed spec fn id_spec(&self) -> u64 {
        self.id
    }

    /// The identity of the row.
    pub(crate) fn id(&self) -> (r: u64)
        ensures
            r == self.id_spec(),
    {
        self.id
    }

    /// What the row holds.
    pub(crate) fn line(&self) -> (r: &BufferRow)
        ensures
            r@ == self.line_view(),
    {
        &self.line
    }

    /// What the row holds.
    pub closed spec fn line_view(&self) -> LineView {
        self.line@
    }

    /// A row with identity `id` holding `line`.
    pub(crate) fn from_parts(id: u64, line: BufferRow) -> (r: Self)
        ensures
            r.id_spec() == id,
            r.line_view() == line@,
    {
        Row { id, line }
    }

    /// A blank row of `width` cells, at least one.
    pub(crate) fn blank(id: u64, width: usize, seqno: u64) -> (r: Self)
        ensures
            r.id_spec() == id,
            r.line_view().0 == blank_cells(if width > 1 { width as int } else { 1 }),
            is_blank_line(r.line_view(), if width > 1 { width as int } else { 1 }, seqno),
    {
        let n = if width > 1 {
            width
        } else {
            1
        };
        Row { id, line: BufferRow { cells: blank_vec(n), occ: 0, wrapped: false, seqno } }
    }

    /// Blanks the row in place, keeping its length where it is wider than `width`.
    pub(crate) fn reset_blank(&mut self, width: usize, id: u64, seqno: u64)
        ensures
            final(self).id_spec() == id,
            final(self).line_view().0 == blank_cells(
                if old(self).line_view().0.len() > width && old(self).line_view().0.len() > 1 {
                    old(self).line_view().0.len() as int
                } else if width > 1 {
                    width as int
                } else {
                    1
                },
            ),
            is_blank_line(final(self).line_view(), if width > 1 { width as int } else { 1 }, seqno),
    {
        let n0 = if width > 1 {
            width
        } else {
            1
        };
        let n = if self.line.cells.len() > n0 {
            self.line.cells.len()
        } else {
            n0
        };
        self.line.cells = blank_vec(n);
        self.id = id;
        self.line.occ = 0;
        self.line.wrapped = false;
        self.line.seqno = seqno;
    }

    /// Records a change at `seqno`.
    pub(crate) fn touch(&mut self, seqno: u64)
        ensures
            final(self).id_spec() == old(self).id_spec(),
            final(self).line_view() == (old(self).line_view().0, old(self).line_view().1, old(self).line_view().2, seqno),
    {
        self.line.seqno = seqno;
    }
}


/// A cursor position on the screen.
#[derive(Clone, Copy, Debug, PartialEq, Eq, Structural)]
pub struct GridCursor {
    pub row: u16,
    pub col: u16,
}

/// A cursor saved with the attributes in force.
#[derive(Clone, Copy, Debug, PartialEq, Eq, Structural)]
pub struct SavedCursor {
    pub cursor: GridCursor,
    pub attrs: CellAttributes,
}

/// Where the first column-zero row starts.
pub open spec fn origin() -> GridCursor {
    GridCursor { row: 0, col: 0 }
}

/// A screen buffer: rows with scrollback above the visible screen, the cursor, the scroll
/// region and how far the viewport is scrolled back.
#[derive(Debug, PartialEq, Eq)]
pub struct ScreenBuffer {
    pub rows: RowStorage<Row>,
    pub visible_rows: u16,
    pub stable_row_offset: usize,
    pub display_offset: usize,
    pub cursor: GridCursor,
    pub saved_cursor: SavedCursor,
    pub attrs: CellAttributes,
    pub scroll_top: u16,
    pub scroll_bottom: u16,
    pub pending_wrap: bool,
    pub current_input_start: Option<u64>,
    pub next_row_id: u64,
}

/// What each row of `rows` holds, top first.
pub open spec fn lines_of(rows: Seq<Row>) -> Seq<LineView> {
    rows.map_values(|r: Row| r.line_view())
}

/// `n` is `o` with its screen (starting at row `ls`) lines `s..e` scrolled up by `p`: the
/// lines `p` below move up, `width`-wide blank lines come in at the bottom, all other rows stay.
pub open spec fn region_scrolled_up(o: Seq<LineView>, n: Seq<LineView>, ls: int, s: int, e: int, p: int, w: int, seqno: u64) -> bool {
    &&& forall|i: int| 0 <= i < o.len() && !(ls + s <= i < ls + e) ==> #[trigger] n[i] == o[i]
    &&& forall|k: int| s <= k < e - p ==> #[trigger] n[ls + k] == o[ls + k + p]
    &&& forall|k: int| s <= k < e && e - p <= k ==> is_blank_line(#[trigger] n[ls + k], w, seqno)
}

/// `n` is `o` with its screen (starting at row `ls`) lines `s..e` scrolled down by `p`: the
/// lines `p` above move down, `width`-wide blank lines come in at the top, all other rows of
/// the screen stay.
pub open spec fn region_scrolled_down(o: Seq<LineView>, n: Seq<LineView>, ls: int, vr: int, s: int, e: int, p: int, w: int, seqno: u64) -> bool {
    &&& forall|i: int| ls <= i < ls + vr && !(ls + s <= i < ls + e) ==> #[trigger] n[i] == o[i]
    &&& forall|k: int| s + p <= k < e ==> #[trigger] n[ls + k] == o[ls + k - p]
    &&& forall|k: int| s <= k < e && k < s + p ==> is_blank_line(#[trigger] n[ls + k], w, seqno)
}

/// Exchanging two rows exchanges their contents.
#[verifier::spinoff_prover]
proof fn lemma_lines_swapped(before: Seq<Row>, after: Seq<Row>, a: int, b: int)
    requires
        0 <= a < before.len(),
        0 <= b < before.len(),
        after == swap_seq(before, a, b),
    ensures
        lines_of(after) == swap_seq(lines_of(before), a, b),
{
    let l = lines_of(before);
    let t = before.update(a, before[b]);
    assert(t.len() == before.len());
    assert(after == t.update(b, before[a]));
    let lt = l.update(a, l[b]);
    assert(swap_seq(l, a, b) == lt.update(b, l[a]));
    assert forall|i: int| 0 <= i < before.len() implies #[trigger] lines_of(after)[i] == swap_seq(l, a, b)[i] by {
        assert(lines_of(after)[i] == after[i].line_view());
        if i == b {
            assert(t.update(b, before[a])[b] == before[a]);
            assert(after[b] == before[a]);
            assert(after[i] == before[a]);
        } else if i == a {
            assert(after[i] == before[b]);
        } else {
            assert(after[i] == before[i]);
        }
    }
    assert(lines_of(after) =~= swap_seq(l, a, b));
}

/// `l` is one of the lines `o[lo..hi]`.
pub open spec fn among(l: LineView, o: Seq<LineView>, lo: int, hi: int) -> bool {
    exists|j: int| lo <= j < hi && l == #[trigger] o[j]
}

impl ScreenBuffer {
    /// The rows, scrollback first, as their contents.
    pub open spec fn lines(&self) -> Seq<LineView> {
        lines_of(self.rows.rows())
    }

    /// The number of rows held.
    pub open spec fn len(&self) -> int {
        self.rows.len_spec() as int
    }

    /// The number of rows above the screen.
    pub open spec fn history(&self) -> int {
        self.len() - self.visible_rows
    }

    /// The rows are consistent: at least a screen of them, within the limits.
    pub open spec fn storage_ok(&self) -> bool {
        &&& self.rows.wf()
        &&& self.rows.visible_lines_spec() == self.visible_rows as usize
        &&& self.visible_rows >= 1
        &&& self.rows.len_spec() >= self.visible_rows
        &&& self.stable_row_offset + self.rows.len_spec() <= ROW_LIMIT
        &&& self.rows.ring().len() <= self.rows.len_spec() + 0x20000
    }

    /// The buffer is consistent: rows, scroll region and viewport agree.
    pub open spec fn wf(&self) -> bool {
        &&& self.storage_ok()
        &&& self.scroll_top <= self.scroll_bottom < self.visible_rows
        &&& self.display_offset <= self.history()
    }

    /// A buffer of `rows` blank rows, `cols` cells wide (both at least one), cursor at the origin.
    pub(crate) fn new(rows: u16, cols: u16, seqno: u64) -> (r: Self)
        ensures
            r.wf(),
            r.visible_rows == if rows > 1 { rows } else { 1 },
            r.len() == r.visible_rows,
            r.history() == 0,
            forall|i: int| 0 <= i < r.len() ==> is_blank_line(#[trigger] r.lines()[i], if cols > 1 { cols as int } else { 1 }, seqno),
            forall|i: int| 0 <= i < r.len() ==> (#[trigger] r.lines()[i]).0.len() == if cols > 1 { cols as int } else { 1 },
            r.cursor == origin(),
            r.saved_cursor == (SavedCursor { cursor: origin(), attrs: default_attrs() }),
            r.attrs == default_attrs(),
            r.scroll_top == 0,
            r.scroll_bottom == r.visible_rows - 1,
            !r.pending_wrap,
            r.display_offset == 0,
            r.stable_row_offset == 0,
    {
        let visible_rows = if rows > 1 {
            rows
        } else {
            1
        };
        let width = if cols > 1 {
            cols as usize
        } else {
            1
        };
        let make = |k: usize| -> (r: Row)
            requires
                k < 0x10000,
            ensures
                r.id_spec() == 1 + k,
                is_blank_line(r.line_view(), width as int, seqno),
                r.line_view().0.len() == width,
            { Row::blank(1 + k as u64, width, seqno) };
        let rows_storage = RowStorage::with_capacity(visible_rows as usize, make);
        let next_row_id: u64 = 1 + visible_rows as u64;
        let mut buffer = ScreenBuffer {
            rows: rows_storage,
            visible_rows,
            stable_row_offset: 0,
            display_offset: 0,
            cursor: GridCursor { row: 0, col: 0 },
            saved_cursor: SavedCursor { cursor: GridCursor { row: 0, col: 0 }, attrs: CellAttributes::default() },
            attrs: CellAttributes::default(),
            scroll_top: 0,
            scroll_bottom: visible_rows - 1,
            pending_wrap: false,
            current_input_start: None,
            next_row_id,
        };
        proof {
            buffer.rows.lemma_wf();
            assert forall|i: int| 0 <= i < buffer.len() implies is_blank_line(#[trigger] buffer.lines()[i], width as int, seqno)
                && buffer.lines()[i].0.len() == width by {
                let k = buffer.len() - 1 - i;
                assert(buffer.rows.rows()[i] == buffer.rows.ring()[k]);
            }
        }
        let last = buffer.rows.len() - 1;
        buffer.current_input_start = match buffer.rows.get(last) {
            Some(row) => Some(row.id),
            None => None,
        };
        buffer
    }

    /// The index of the top visible row among all rows.
    pub open spec fn live_start_spec(&self) -> int {
        self.len() - self.visible_rows
    }

    /// The index among all rows of screen row `row`, clamped to the screen.
    pub open spec fn abs_row(&self, row: int) -> int {
        self.live_start_spec() + if row < self.visible_rows - 1 { row } else { self.visible_rows - 1 }
    }

    /// The stable index of the top row of the viewport.
    pub open spec fn viewport_top_spec(&self) -> int {
        self.stable_row_offset + self.history() - self.display_offset
    }

    /// The stable index of viewport row `row`, clamped to the screen.
    pub open spec fn stable_of_visible(&self, row: int) -> int {
        self.viewport_top_spec() + if row < self.visible_rows - 1 { row } else { self.visible_rows - 1 }
    }

    /// A blank buffer, as `new` makes it.
    pub(crate) fn reset(&mut self, rows: u16, cols: u16, seqno: u64)
        ensures
            fresh(*final(self), if rows > 1 { rows } else { 1 }, if cols > 1 { cols } else { 1 }, seqno),
    {
        *self = ScreenBuffer::new(rows, cols, seqno);
    }

    /// The index of the top visible row among all rows.
    pub(crate) fn live_start(&self) -> (r: usize)
        requires
            self.rows.wf(),
            self.visible_rows >= 1,
            self.len() >= self.visible_rows,
        ensures
            r == self.live_start_spec(),
    {
        self.rows.len() - self.visible_rows as usize
    }

    /// The number of rows above the screen.
    pub(crate) fn history_size(&self) -> (r: usize)
        requires
            self.len() >= self.visible_rows,
        ensures
            r == self.history(),
    {
        self.rows.len() - self.visible_rows as usize
    }

    /// Hands out a fresh row identity.
    pub(crate) fn alloc_row_id(&mut self) -> (r: u64)
        ensures
            r == old(self).next_row_id,
            *final(self) == (ScreenBuffer { next_row_id: sat_add_u64(old(self).next_row_id, 1), ..*old(self) }),
    {
        let id = self.next_row_id;
        self.next_row_id = self.next_row_id.saturating_add(1);
        id
    }

    /// The index among all rows of the row the current input started on.
    pub(crate) fn current_input_absolute_index(&self) -> (r: Option<usize>)
        requires
            self.rows.wf(),
        ensures
            self.current_input_start is None ==> r is None,
            r matches Some(i) ==> i < self.len() && self.current_input_start == Some(self.rows.rows()[i as int].id_spec()),
            r == (match self.current_input_start {
                Some(id) => match first_with_id(self.rows.rows(), id, 0) {
                    Some(i) => Some(i as usize),
                    None => None::<usize>,
                },
                None => None::<usize>,
            }),
    {
        let id = match self.current_input_start {
            Some(id) => id,
            None => return None,
        };
        self.find_row(id)
    }

    /// The index of the first row with identity `id`.
    pub(crate) fn find_row(&self, id: u64) -> (r: Option<usize>)
        requires
            self.rows.wf(),
        ensures
            r matches Some(i) ==> i < self.len() && self.rows.rows()[i as int].id_spec() == id
                && forall|j: int| 0 <= j < i ==> (#[trigger] self.rows.rows()[j]).id_spec() != id,
            r is None ==> forall|j: int| 0 <= j < self.len() ==> (#[trigger] self.rows.rows()[j]).id_spec() != id,
            r == (match first_with_id(self.rows.rows(), id, 0) {
                Some(i) => Some(i as usize),
                None => None::<usize>,
            }),
    {
        let n = self.rows.len();
        let mut i: usize = 0;
        while i < n
            invariant
                self.rows.wf(),
                n == self.len(),
                i <= n,
                forall|j: int| 0 <= j < i ==> (#[trigger] self.rows.rows()[j]).id_spec() != id,
                first_with_id(self.rows.rows(), id, 0) == first_with_id(self.rows.rows(), id, i as int),
            decreases n - i,
        {
            proof {
                self.rows.lemma_wf();
            }
            let row = self.rows.get(i).unwrap();
            if row.id == id {
                return Some(i);
            }
            i = i + 1;
        }
        proof {
            self.rows.lemma_wf();
        }
        None
    }

    /// Where the row the current input started on is gone, the input starts on the bottom row.
    pub(crate) fn reconcile_current_input_start(&mut self)
        requires
            old(self).rows.wf(),
            old(self).len() >= 1,
        ensures
            *final(self) == (ScreenBuffer { current_input_start: final(self).current_input_start, ..*old(self) }),
            final(self).current_input_start == reconciled(old(self).rows.rows(), old(self).current_input_start),
    {
        if let Some(id) = self.current_input_start {
            if self.find_row(id).is_none() {
                let last = self.rows.len() - 1;
                self.current_input_start = Some(self.rows.get(last).unwrap().id);
            }
        }
    }

    /// Adds `count` blank rows on top, as `RowStorage::initialize` places them.
    pub(crate) fn fill_blank_rows(&mut self, count: usize, width: usize, seqno: u64)
        requires
            old(self).rows.wf(),
            count <= 0x10000,
            old(self).stable_row_offset + old(self).len() + count <= ROW_LIMIT,
            old(self).rows.ring().len() <= old(self).len() + 0x20000,
        ensures
            final(self).rows.wf(),
            final(self).len() == old(self).len() + count,
            final(self).rows.ring().len() <= final(self).len() + 0x20000,
            final(self).rows.visible_lines_spec() == old(self).rows.visible_lines_spec(),
            *final(self) == (ScreenBuffer { rows: final(self).rows, next_row_id: final(self).next_row_id, ..*old(self) }),
            final(self).lines().subrange(count as int, final(self).len()) == old(self).lines(),
            old(self).rows.ring().len() == old(self).len() ==> forall|i: int| 0 <= i < count ==>
                is_blank_line(#[trigger] final(self).lines()[i], if width > 1 { width as int } else { 1 }, seqno)
                && final(self).lines()[i].0.len() == if width > 1 { width as int } else { 1 },
    {
        let next = self.next_row_id;
        let made: usize = if self.rows.len() + count > self.rows.allocated() {
            if count > MAX_CACHE_SIZE {
                count
            } else {
                MAX_CACHE_SIZE
            }
        } else {
            0
        };
        let make = |k: usize| -> (r: Row)
            ensures
                r.id_spec() == sat_add_u64(next, k as u64),
                is_blank_line(r.line_view(), if width > 1 { width as int } else { 1 }, seqno),
                r.line_view().0.len() == if width > 1 { width as int } else { 1 },
            { Row::blank(next.saturating_add(k as u64), width, seqno) };
        let ghost ring0 = self.rows.ring();
        let ghost len0 = self.len();
        proof {
            self.rows.lemma_wf();
        }
        self.rows.initialize(count, make);
        self.next_row_id = next.saturating_add(made as u64);
        proof {
            self.rows.lemma_wf();
            let r1 = self.rows.ring();
            assert forall|j: int| 0 <= j < len0 implies #[trigger] r1[j] == ring0[j] by {
                if len0 + count > ring0.len() {
                    assert(r1.subrange(0, ring0.len() as int)[j] == ring0[j]);
                }
            }
            assert(self.lines().subrange(count as int, self.len()) =~= old(self).lines());
            if ring0.len() == len0 {
                assert forall|i: int| 0 <= i < count implies is_blank_line(#[trigger] self.lines()[i], if width > 1 { width as int } else { 1 }, seqno)
                    && self.lines()[i].0.len() == if width > 1 { width as int } else { 1 } by {
                    if count > 0 {
                        let k = count - 1 - i;
                        assert(self.rows.rows()[i] == r1[ring0.len() + k]);
                    }
                }
            }
        }
    }

    /// Keeps the viewport within the rows above the screen.
    pub(crate) fn clamp_display_offset(&mut self)
        requires
            old(self).len() >= old(self).visible_rows,
        ensures
            *final(self) == (ScreenBuffer {
                display_offset: if old(self).display_offset < old(self).history() {
                    old(self).display_offset
                } else {
                    old(self).history() as usize
                },
                ..*old(self)
            }),
    {
        let h = self.history_size();
        if self.display_offset > h {
            self.display_offset = h;
        }
    }

    /// The stable index of the top row of the viewport.
    pub(crate) fn viewport_top(&self) -> (r: StableRowIndex)
        requires
            self.wf(),
        ensures
            r == self.viewport_top_spec(),
    {
        self.stable_row_offset + (self.history_size() - self.display_offset)
    }

    /// Scrolls the viewport back to the bottom; whether it moved.
    pub(crate) fn set_viewport_bottom_follow(&mut self) -> (r: bool)
        ensures
            r == (old(self).display_offset != 0),
            *final(self) == (ScreenBuffer { display_offset: 0, ..*old(self) }),
    {
        let changed = self.display_offset != 0;
        self.display_offset = 0;
        changed
    }

    /// Scrolls the viewport `rows` rows (at least one) into the scrollback, as far as there is
    /// scrollback; whether it moved.
    pub(crate) fn scroll_viewport_up(&mut self, rows: u16) -> (r: bool)
        requires
            old(self).wf(),
        ensures
            ({
                let step = if rows > 1 { rows as int } else { 1 };
                let next = if old(self).display_offset + step < old(self).history() {
                    old(self).display_offset + step
                } else {
                    old(self).history()
                };
                &&& r == (next != old(self).display_offset)
                &&& *final(self) == (ScreenBuffer { display_offset: next as usize, ..*old(self) })
            }),
    {
        let step: usize = if rows > 1 {
            rows as usize
        } else {
            1
        };
        let h = self.history_size();
        let next = if self.display_offset + step < h {
            self.display_offset + step
        } else {
            h
        };
        if next == self.display_offset {
            return false;
        }
        self.display_offset = next;
        true
    }

    /// Scrolls the viewport `rows` rows (at least one) toward the bottom; whether it moved.
    pub(crate) fn scroll_viewport_down(&mut self, rows: u16) -> (r: bool)
        ensures
            ({
                let step = if rows > 1 { rows as int } else { 1 };
                let next = if old(self).display_offset >= step {
                    old(self).display_offset - step
                } else {
                    0
                };
                &&& r == (next != old(self).display_offset)
                &&& *final(self) == (ScreenBuffer { display_offset: next as usize, ..*old(self) })
            }),
    {
        let step: usize = if rows > 1 {
            rows as usize
        } else {
            1
        };
        let next = self.display_offset.saturating_sub(step);
        if next == self.display_offset {
            return false;
        }
        self.display_offset = next;
        true
    }

    /// The stable index of viewport row `row`, clamped to the screen.
    pub(crate) fn visible_row_to_stable_row(&self, row: u16) -> (r: StableRowIndex)
        requires
            self.wf(),
        ensures
            r == self.stable_of_visible(row as int),
    {
        let max_row = self.visible_rows - 1;
        let row = if row < max_row {
            row
        } else {
            max_row
        };
        self.viewport_top() + row as usize
    }

    /// The viewport row showing stable row `stable_row`, if it is in view.
    pub(crate) fn stable_row_to_visible_row(&self, stable_row: StableRowIndex) -> (r: Option<u16>)
        requires
            self.wf(),
        ensures
            r == if self.viewport_top_spec() <= stable_row < self.viewport_top_spec() + self.visible_rows {
                Some((stable_row - self.viewport_top_spec()) as u16)
            } else {
                None::<u16>
            },
    {
        let top = self.viewport_top();
        let bottom = top + self.visible_rows as usize;
        if stable_row >= top && stable_row < bottom {
            Some((stable_row - top) as u16)
        } else {
            None
        }
    }

    /// The row with stable index `stable_row`, if it is still held.
    pub(crate) fn line_for_stable_row(&self, stable_row: StableRowIndex) -> (r: Option<&BufferRow>)
        requires
            self.wf(),
        ensures
            ({
                let i = stable_row - self.stable_row_offset;
                &&& 0 <= i < self.len() ==> (r matches Some(b) && b@ == self.lines()[i])
                &&& !(0 <= i < self.len()) ==> r is None
            }),
    {
        if stable_row < self.stable_row_offset {
            return None;
        }
        let index = stable_row - self.stable_row_offset;
        match self.rows.get(index) {
            Some(row) => Some(&row.line),
            None => None,
        }
    }

    /// The row shown at viewport row `row`, clamped to the screen.
    pub(crate) fn visible_row(&self, row: u16) -> (r: Option<&BufferRow>)
        requires
            self.wf(),
        ensures
            ({
                let i = self.stable_of_visible(row as int) - self.stable_row_offset;
                &&& 0 <= i < self.len() ==> (r matches Some(b) && b@ == self.lines()[i])
                &&& !(0 <= i < self.len()) ==> r is None
            }),
    {
        let stable = self.visible_row_to_stable_row(row);
        self.line_for_stable_row(stable)
    }

    /// The index among all rows of screen row `row`, clamped to the screen.
    pub(crate) fn absolute_screen_row(&self, row: u16) -> (r: usize)
        requires
            self.wf(),
        ensures
            r == self.abs_row(row as int),
            r < self.len(),
    {
        let max_row = self.visible_rows - 1;
        let row = if row < max_row {
            row
        } else {
            max_row
        };
        self.live_start() + row as usize
    }

    /// The index among all rows of the cursor row, clamped to the screen.
    pub(crate) fn current_absolute_row(&self) -> (r: usize)
        requires
            self.wf(),
        ensures
            r == self.abs_row(self.cursor.row as int),
            r < self.len(),
    {
        self.absolute_screen_row(self.cursor.row)
    }

    /// The cursor position on the viewport, if the cursor row is in view.
    pub(crate) fn visible_cursor_position(&self) -> (r: Option<(u16, u16)>)
        requires
            self.wf(),
        ensures
            ({
                let s = self.stable_row_offset + self.abs_row(self.cursor.row as int);
                r == if self.viewport_top_spec() <= s < self.viewport_top_spec() + self.visible_rows {
                    Some(((s - self.viewport_top_spec()) as u16, self.cursor.col))
                } else {
                    None::<(u16, u16)>
                }
            }),
    {
        let stable_cursor_row = self.stable_row_offset + self.current_absolute_row();
        match self.stable_row_to_visible_row(stable_cursor_row) {
            Some(row) => Some((row, self.cursor.col)),
            None => None,
        }
    }

    /// Saves the cursor and the attributes in force.
    pub(crate) fn save_cursor(&mut self)
        ensures
            *final(self) == (ScreenBuffer {
                saved_cursor: SavedCursor { cursor: old(self).cursor, attrs: old(self).attrs },
                ..*old(self)
            }),
    {
        self.saved_cursor = SavedCursor { cursor: self.cursor, attrs: self.attrs };
    }

    /// Restores the saved cursor and attributes, keeping the column on the screen.
    pub(crate) fn restore_cursor(&mut self, cols: u16)
        requires
            cols >= 1,
        ensures
            *final(self) == (ScreenBuffer {
                cursor: GridCursor {
                    row: old(self).saved_cursor.cursor.row,
                    col: if old(self).saved_cursor.cursor.col < cols - 1 {
                        old(self).saved_cursor.cursor.col
                    } else {
                        (cols - 1) as u16
                    },
                },
                attrs: old(self).saved_cursor.attrs,
                pending_wrap: false,
                ..*old(self)
            }),
    {
        self.cursor = self.saved_cursor.cursor;
        self.attrs = self.saved_cursor.attrs;
        let max_col = cols - 1;
        if self.cursor.col > max_col {
            self.cursor.col = max_col;
        }
        self.pending_wrap = false;
    }

    /// Moves the cursor to `row` and `col`, kept on the screen.
    pub(crate) fn set_cursor_position(&mut self, row: u16, col: u16, cols: u16)
        requires
            cols >= 1,
            old(self).visible_rows >= 1,
        ensures
            *final(self) == (ScreenBuffer {
                cursor: GridCursor {
                    row: if row < old(self).visible_rows - 1 { row } else { (old(self).visible_rows - 1) as u16 },
                    col: if col < cols - 1 { col } else { (cols - 1) as u16 },
                },
                pending_wrap: false,
                ..*old(self)
            }),
    {
        let max_row = self.visible_rows - 1;
        let max_col = cols - 1;
        self.cursor.row = if row < max_row {
            row
        } else {
            max_row
        };
        self.cursor.col = if col < max_col {
            col
        } else {
            max_col
        };
        self.pending_wrap = false;
    }

    /// Moves the cursor to `row`, kept on the screen.
    pub(crate) fn move_cursor_to_row(&mut self, row: u16)
        requires
            old(self).visible_rows >= 1,
        ensures
            *final(self) == (ScreenBuffer {
                cursor: GridCursor {
                    row: if row < old(self).visible_rows - 1 { row } else { (old(self).visible_rows - 1) as u16 },
                    col: old(self).cursor.col,
                },
                pending_wrap: false,
                ..*old(self)
            }),
    {
        let max_row = self.visible_rows - 1;
        self.cursor.row = if row < max_row {
            row
        } else {
            max_row
        };
        self.pending_wrap = false;
    }

    /// Moves the cursor to `col`, kept on the screen.
    pub(crate) fn move_cursor_to_col(&mut self, col: u16, cols: u16)
        requires
            cols >= 1,
        ensures
            *final(self) == (ScreenBuffer {
                cursor: GridCursor {
                    row: old(self).cursor.row,
                    col: if col < cols - 1 { col } else { (cols - 1) as u16 },
                },
                pending_wrap: false,
                ..*old(self)
            }),
    {
        let max_col = cols - 1;
        self.cursor.col = if col < max_col {
            col
        } else {
            max_col
        };
        self.pending_wrap = false;
    }

    /// The buffer with only row `i` changed, to `line`.
    pub open spec fn with_line(&self, other: &Self, i: int, line: LineView) -> bool {
        &&& other.rows.wf()
        &&& other.len() == self.len()
        &&& other.rows.visible_lines_spec() == self.rows.visible_lines_spec()
        &&& other.rows.ring().len() == self.rows.ring().len()
        &&& other.lines() == self.lines().update(i, line)
        &&& *other == (ScreenBuffer { rows: other.rows, ..*self })
    }

    /// Replaces what row `absolute` holds, keeping its identity.
    pub(crate) fn set_row(&mut self, absolute: usize, cells: Vec<TerminalCell>, occ: usize, wrapped: bool, seqno: u64)
        requires
            old(self).rows.wf(),
            absolute < old(self).len(),
        ensures
            old(self).with_line(final(self), absolute as int, (views(cells@), occ, wrapped, seqno)),
    {
        let ghost old_rows = self.rows.rows();
        let ghost new_line = (views(cells@), occ, wrapped, seqno);
        match self.rows.get_mut(absolute) {
            Some(row) => {
                row.line = BufferRow::from_cells(cells, occ, wrapped, seqno);
            },
            None => {},
        }
        proof {
            assert(self.rows.rows()[absolute as int].line_view() == new_line);
            assert(self.lines() =~= old(self).lines().update(absolute as int, new_line));
            assert(self.rows.wf());
            assert(self.len() == old(self).len());
            assert(self.rows.visible_lines_spec() == old(self).rows.visible_lines_spec());
            assert(self.rows.ring().len() == old(self).rows.ring().len());
            assert(*self == (ScreenBuffer { rows: self.rows, ..*old(self) }));
        }
    }

    /// What row `absolute` holds.
    pub(crate) fn line_at(&self, absolute: usize) -> (r: &BufferRow)
        requires
            self.rows.wf(),
            absolute < self.len(),
        ensures
            r@ == self.lines()[absolute as int],
    {
        &self.rows.get(absolute).unwrap().line
    }

    /// Blanks the screen line `line` under a fresh identity.
    pub(crate) fn reset_line(&mut self, line: usize, width: usize, seqno: u64)
        requires
            old(self).storage_ok(),
            line < old(self).visible_rows,
        ensures
            final(self).storage_ok(),
            final(self).len() == old(self).len(),
            final(self).rows.ring().len() == old(self).rows.ring().len(),
            is_blank_line(final(self).lines()[old(self).live_start_spec() + line], if width > 1 { width as int } else { 1 }, seqno),
            forall|i: int| 0 <= i < final(self).len() && i != old(self).live_start_spec() + line ==> #[trigger] final(self).lines()[i] == old(self).lines()[i],
            *final(self) == (ScreenBuffer { rows: final(self).rows, next_row_id: final(self).next_row_id, ..*old(self) }),
    {
        let id = self.alloc_row_id();
        let absolute = self.live_start() + line;
        match self.rows.get_mut(absolute) {
            Some(row) => {
                row.reset_blank(width, id, seqno);
            },
            None => {},
        }
        proof {
            assert(self.lines() =~= old(self).lines().update(absolute as int, self.lines()[absolute as int]));
        }
    }

    /// Copies of the cells of row `absolute`, cut or padded to `width`.
    pub(crate) fn expanded_row_cells(&self, absolute: usize, width: usize) -> (r: Vec<TerminalCell>)
        requires
            self.rows.wf(),
            absolute < self.len(),
        ensures
            views(r@) == resize_view(self.lines()[absolute as int].0, width as int),
    {
        let line = self.line_at(absolute);
        let mut cells = copy_range(&line.cells, 0, line.cells.len());
        proof {
            assert(views(line.cells@).subrange(0, line.cells@.len() as int) =~= views(line.cells@));
        }
        resize_cells(&mut cells, width);
        cells
    }

    /// Stores `cells` in row `absolute`, repaired and `width` wide, changed at `seqno`.
    pub(crate) fn replace_row_cells(&mut self, absolute: usize, cells: Vec<TerminalCell>, wrapped: bool, width: usize, seqno: u64)
        requires
            old(self).wf(),
            absolute < old(self).len(),
        ensures
            final(self).wf(),
            ({
                let v = normalize_view(views(cells@), width as int);
                old(self).with_line(final(self), absolute as int, (v, occupied_views(v) as usize, wrapped, seqno))
            }),
    {
        let mut cells = cells;
        normalize_cells(&mut cells, width);
        let occ = row_occupied_columns(cells.as_slice());
        proof {
            lemma_occupied_views(cells@);
        }
        self.set_row(absolute, cells, occ, wrapped, seqno);
    }

    /// Room for `extra` more rows without stable indexes passing the limit.
    pub open spec fn room(&self, extra: int) -> bool {
        self.stable_row_offset + self.len() + extra <= ROW_LIMIT
    }

    /// The scroll operations keep the buffer consistent and touch only rows, viewport and
    /// identities.
    pub open spec fn scrolled(&self, other: &Self) -> bool {
        &&& other.wf()
        &&& other.visible_rows == self.visible_rows
        &&& other.cursor == self.cursor
        &&& other.saved_cursor == self.saved_cursor
        &&& other.attrs == self.attrs
        &&& other.scroll_top == self.scroll_top
        &&& other.scroll_bottom == self.scroll_bottom
        &&& other.pending_wrap == self.pending_wrap
    }

    /// Blanks screen lines `from..to` under fresh identities.
    pub(crate) fn reset_lines(&mut self, from: usize, to: usize, width: usize, seqno: u64)
        requires
            old(self).storage_ok(),
            to <= old(self).visible_rows,
        ensures
            final(self).storage_ok(),
            final(self).len() == old(self).len(),
            final(self).rows.ring().len() == old(self).rows.ring().len(),
            *final(self) == (ScreenBuffer { rows: final(self).rows, next_row_id: final(self).next_row_id, ..*old(self) }),
            forall|k: int| from <= k < to ==> is_blank_line(
                #[trigger] final(self).lines()[old(self).live_start_spec() + k],
                if width > 1 { width as int } else { 1 },
                seqno,
            ),
            forall|i: int| 0 <= i < old(self).len() && !(old(self).live_start_spec() + from <= i < old(self).live_start_spec() + to)
                ==> #[trigger] final(self).lines()[i] == old(self).lines()[i],
    {
        let ghost ls = old(self).live_start_spec();
        let ghost w: int = if width > 1 { width as int } else { 1 };
        let mut line = from;
        while line < to
            invariant
                self.storage_ok(),
                self.len() == old(self).len(),
                self.rows.ring().len() == old(self).rows.ring().len(),
                *self == (ScreenBuffer { rows: self.rows, next_row_id: self.next_row_id, ..*old(self) }),
                to <= self.visible_rows,
                ls == self.live_start_spec(),
                w == if width > 1 { width as int } else { 1 },
                from <= line || to <= line,
                forall|k: int| from <= k < line && k < to ==> is_blank_line(#[trigger] self.lines()[ls + k], w, seqno),
                forall|i: int| 0 <= i < old(self).len() && !(ls + from <= i < ls + line && i < ls + to)
                    ==> #[trigger] self.lines()[i] == old(self).lines()[i],
            decreases to - line,
        {
            let ghost before = self.lines();
            self.reset_line(line, width, seqno);
            proof {
                assert forall|k: int| from <= k < line + 1 && k < to implies is_blank_line(#[trigger] self.lines()[ls + k], w, seqno) by {
                    if k < line {
                        assert(self.lines()[ls + k] == before[ls + k]);
                    } else {
                        assert(k == line);
                        assert(is_blank_line(self.lines()[ls + line], w, seqno));
                    }
                }
                assert forall|i: int| 0 <= i < old(self).len() && !(ls + from <= i < ls + line + 1 && i < ls + to)
                    implies #[trigger] self.lines()[i] == old(self).lines()[i] by {
                    assert(self.lines()[i] == before[i]);
                }
            }
            line = line + 1;
        }
    }

    /// Moves screen lines `start + positions..end` up by `positions` lines; the lines that
    /// were at `start..start + positions` end up, in some order, at `end - positions..end`.
    #[verifier::spinoff_prover]
    pub(crate) fn shift_up(&mut self, start: usize, end: usize, positions: usize)
        requires
            old(self).storage_ok(),
            start + positions <= end <= old(self).visible_rows,
            positions >= 1,
        ensures
            final(self).storage_ok(),
            final(self).len() == old(self).len(),
            final(self).rows.ring().len() == old(self).rows.ring().len(),
            *final(self) == (ScreenBuffer { rows: final(self).rows, ..*old(self) }),
            forall|i: int| 0 <= i < old(self).len() && !(old(self).live_start_spec() + start <= i < old(self).live_start_spec() + end)
                ==> #[trigger] final(self).lines()[i] == old(self).lines()[i],
            forall|k: int| start <= k < end - positions ==> #[trigger] final(self).lines()[old(self).live_start_spec() + k]
                == old(self).lines()[old(self).live_start_spec() + k + positions],
            forall|k: int| end - positions <= k < end ==> among(
                #[trigger] final(self).lines()[old(self).live_start_spec() + k],
                old(self).lines(),
                old(self).live_start_spec() + start,
                old(self).live_start_spec() + start + positions,
            ),
    {
        let ghost ls = old(self).live_start_spec();
        let ghost o = old(self).lines();
        let mut line = start;
        let stop = end - positions;
        proof {
            assert forall|k: int| line <= k < line + positions implies among(#[trigger] self.lines()[ls + k], o, ls + start, ls + start + positions) by {
                assert(self.lines()[ls + k] == o[ls + k]);
            }
        }
        while line < stop
            invariant
                stop == end - positions,
                self.storage_ok(),
                self.len() == old(self).len(),
                self.rows.ring().len() == old(self).rows.ring().len(),
                *self == (ScreenBuffer { rows: self.rows, ..*old(self) }),
                start <= line <= stop,
                end <= self.visible_rows,
                ls == self.live_start_spec(),
                o == old(self).lines(),
                positions >= 1,
                forall|i: int| 0 <= i < o.len() && !(ls + start <= i < ls + end) ==> #[trigger] self.lines()[i] == o[i],
                forall|k: int| start <= k < line ==> #[trigger] self.lines()[ls + k] == o[ls + k + positions],
                forall|k: int| line + positions <= k < end ==> #[trigger] self.lines()[ls + k] == o[ls + k],
                forall|k: int| line <= k < line + positions ==> among(#[trigger] self.lines()[ls + k], o, ls + start, ls + start + positions),
            decreases end - line,
        {
            let ghost before = self.lines();
            let ghost before_rows = self.rows.rows();
            proof {
                assert(among(before[ls + line], o, ls + start, ls + start + positions));
            }
            self.rows.swap(Line(line as i32), Line((line + positions) as i32));
            proof {
                assert(self.rows.rows() == swap_seq(before_rows, ls + line, ls + line + positions));
                lemma_lines_swapped(before_rows, self.rows.rows(), ls + line, ls + line + positions);
                assert(self.lines()[ls + line] == before[ls + line + positions]);
                assert(self.lines()[ls + line + positions] == before[ls + line]);
                assert forall|k: int| line + 1 <= k < line + 1 + positions implies among(#[trigger] self.lines()[ls + k], o, ls + start, ls + start + positions) by {
                    if k == line + positions {
                        assert(self.lines()[ls + k] == before[ls + line]);
                    } else {
                        assert(self.lines()[ls + k] == before[ls + k]);
                    }
                }
            }
            line = line + 1;
        }
    }

    /// Moves screen lines `start..end - positions` down by `positions` lines; the lines that
    /// were at `end - positions..end` end up, in some order, at `start..start + positions`.
    #[verifier::spinoff_prover]
    pub(crate) fn shift_down(&mut self, start: usize, end: usize, positions: usize)
        requires
            old(self).storage_ok(),
            start + positions <= end <= old(self).visible_rows,
            positions >= 1,
        ensures
            final(self).storage_ok(),
            final(self).len() == old(self).len(),
            final(self).rows.ring().len() == old(self).rows.ring().len(),
            *final(self) == (ScreenBuffer { rows: final(self).rows, ..*old(self) }),
            forall|i: int| 0 <= i < old(self).len() && !(old(self).live_start_spec() + start <= i < old(self).live_start_spec() + end)
                ==> #[trigger] final(self).lines()[i] == old(self).lines()[i],
            forall|k: int| start + positions <= k < end ==> #[trigger] final(self).lines()[old(self).live_start_spec() + k]
                == old(self).lines()[old(self).live_start_spec() + k - positions],
            forall|k: int| start <= k < start + positions ==> among(
                #[trigger] final(self).lines()[old(self).live_start_spec() + k],
                old(self).lines(),
                old(self).live_start_spec() + end - positions,
                old(self).live_start_spec() + end,
            ),
    {
        let ghost ls = old(self).live_start_spec();
        let ghost o = old(self).lines();
        let mut line = end;
        proof {
            assert forall|k: int| line - positions <= k < line implies among(#[trigger] self.lines()[ls + k], o, ls + end - positions, ls + end) by {
                assert(self.lines()[ls + k] == o[ls + k]);
            }
        }
        while line > start + positions
            invariant
                self.storage_ok(),
                self.len() == old(self).len(),
                self.rows.ring().len() == old(self).rows.ring().len(),
                *self == (ScreenBuffer { rows: self.rows, ..*old(self) }),
                start + positions <= line <= end,
                end <= self.visible_rows,
                ls == self.live_start_spec(),
                o == old(self).lines(),
                positions >= 1,
                forall|i: int| 0 <= i < o.len() && !(ls + start <= i < ls + end) ==> #[trigger] self.lines()[i] == o[i],
                forall|k: int| line <= k < end ==> #[trigger] self.lines()[ls + k] == o[ls + k - positions],
                forall|k: int| start <= k < line - positions ==> #[trigger] self.lines()[ls + k] == o[ls + k],
                forall|k: int| line - positions <= k < line ==> among(#[trigger] self.lines()[ls + k], o, ls + end - positions, ls + end),
            decreases line,
        {
            line = line - 1;
            let ghost before = self.lines();
            let ghost before_rows = self.rows.rows();
            proof {
                assert(among(before[ls + line], o, ls + end - positions, ls + end));
            }
            self.rows.swap(Line(line as i32), Line((line - positions) as i32));
            proof {
                assert(self.rows.rows() == swap_seq(before_rows, ls + line, ls + line - positions));
                lemma_lines_swapped(before_rows, self.rows.rows(), ls + line, ls + line - positions);
                assert(self.lines()[ls + line] == before[ls + line - positions]);
                assert(self.lines()[ls + line - positions] == before[ls + line]);
                assert forall|k: int| line - positions <= k < line implies among(#[trigger] self.lines()[ls + k], o, ls + end - positions, ls + end) by {
                    if k == line - positions {
                        assert(self.lines()[ls + k] == before[ls + line]);
                    } else {
                        assert(self.lines()[ls + k] == before[ls + k]);
                    }
                }
            }
        }
    }

    /// Screen line `line` clamped to the screen.
    pub open spec fn clamp_line(&self, line: u16) -> int {
        if line < self.visible_rows - 1 { line as int } else { self.visible_rows - 1 }
    }

    /// How many lines a scroll of `positions` moves the screen lines `start..=end`: at least
    /// one, at most the region (or one for an empty region).
    pub open spec fn scroll_step(&self, start: u16, end: u16, positions: usize) -> int {
        let region = self.clamp_line(end) + 1 - self.clamp_line(start);
        let most = if region > 1 { region } else { 1 };
        let p = if positions > 1 { positions as int } else { 1 };
        if p < most { p } else { most }
    }

    /// Where a viewport scrolled back by `display_offset` rows goes when the text moves up `p`
    /// lines: it follows the text, up to `limit` rows and the `history` rows there are.
    pub open spec fn followed_offset(display_offset: int, p: int, limit: int, history: int) -> int {
        let followed = if display_offset + p < limit { display_offset + p } else { limit };
        if display_offset == 0 {
            0
        } else if followed < history {
            followed
        } else {
            history
        }
    }

    /// What scrolling screen lines `s..e` (below the top line) up by `p` lines does to this
    /// buffer, giving `other`: the lines `p` below each line move up, `p` blank lines `width`
    /// wide come in at the bottom, the other rows stay. A viewport scrolled back follows the
    /// text unless the whole region was blanked.
    pub open spec fn inner_scrolled_up(&self, other: &Self, s: int, e: int, p: int, width: usize, limit: usize, seqno: u64) -> bool {
        let w = if width > 1 { width as int } else { 1 };
        &&& other.len() == self.len()
        &&& other.display_offset == if e - s <= p {
            self.display_offset as int
        } else {
            Self::followed_offset(self.display_offset as int, p, limit as int, self.history())
        }
        &&& region_scrolled_up(self.lines(), other.lines(), self.live_start_spec(), s, e, p, w, seqno)
    }

    /// What scrolling screen lines `0..e` up by `p` lines does to this buffer, giving `other`:
    /// the top `p` lines go to the scrollback, which grows by as many rows as `limit` leaves room
    /// for, dropping its oldest rows beyond that; `p` blank lines `width` wide come in at the
    /// bottom of the region and the lines below it stay. A viewport scrolled back follows the
    /// text.
    pub open spec fn top_scrolled_up(&self, other: &Self, e: int, p: int, width: usize, limit: usize, seqno: u64) -> bool {
        &&& other.display_offset == Self::followed_offset(self.display_offset as int, p, limit as int, other.history())
        &&& self.top_lines_scrolled_up(other.lines(), e, p, width, limit, seqno)
    }

    /// How many rows the scrollback grows by when the top `p` screen lines go into it: as many
    /// as `limit` leaves room for.
    pub open spec fn top_rows_added(&self, p: int, limit: usize) -> int {
        let room = if limit > self.history() { limit - self.history() } else { 0 };
        if p < room { p } else { room }
    }

    /// The rows `n` that scrolling screen lines `0..e` of this buffer up by `p` lines leaves,
    /// as `top_scrolled_up` says.
    pub open spec fn top_lines_scrolled_up(&self, n: Seq<LineView>, e: int, p: int, width: usize, limit: usize, seqno: u64) -> bool {
        let w = if width > 1 { width as int } else { 1 };
        let o = self.lines();
        let ls = self.live_start_spec();
        let add = self.top_rows_added(p, limit);
        let ls2 = ls + add;
        &&& n.len() == self.len() + add
        &&& forall|j: int| 0 <= j < ls2 + e - p ==> #[trigger] n[j] == o[j + p - add]
        &&& forall|k: int| e - p <= k < e ==> is_blank_line(#[trigger] n[ls2 + k], w, seqno)
        &&& forall|k: int| e <= k < self.visible_rows ==> #[trigger] n[ls2 + k] == o[ls + k]
    }

    /// What scrolling screen lines `start..=end` up by `positions` lines does to this buffer,
    /// giving `other`, the lines and the step clamped to the screen and the region.
    pub open spec fn scrolled_up_range(&self, other: &Self, start: u16, end: u16, positions: usize, width: usize, limit: usize, seqno: u64) -> bool {
        let s = self.clamp_line(start);
        let e = self.clamp_line(end) + 1;
        let p = self.scroll_step(start, end, positions);
        &&& other.current_input_start == reconciled(other.rows.rows(), self.current_input_start)
        &&& other.stable_row_offset == self.stable_row_offset
        &&& if s != 0 {
            self.inner_scrolled_up(other, s, e, p, width, limit, seqno)
        } else {
            self.top_scrolled_up(other, e, p, width, limit, seqno)
        }
    }

    /// Scrolls screen lines `0..end` up by `positions` lines: the scrollback takes in the top
    /// lines, growing by `add` rows (its oldest rows are reused for the rest), blank lines come
    /// in at `end - positions..end`, and the lines below `end` stay.
    #[verifier::spinoff_prover]
    fn scroll_top_up(&mut self, end: usize, positions: usize, add: usize, width: usize, seqno: u64)
        requires
            old(self).storage_ok(),
            1 <= positions <= end <= old(self).visible_rows,
            add <= positions,
            old(self).room(0x10000),
        ensures
            final(self).storage_ok(),
            *final(self) == (ScreenBuffer { rows: final(self).rows, next_row_id: final(self).next_row_id, ..*old(self) }),
            final(self).len() == old(self).len() + add,
            ({
                let o = old(self).lines();
                let n = final(self).lines();
                let ls2 = old(self).live_start_spec() + add;
                let w = if width > 1 { width as int } else { 1 };
                &&& forall|j: int| 0 <= j < ls2 + end - positions ==> #[trigger] n[j] == o[j + positions - add]
                &&& forall|k: int| end - positions <= k < end ==> is_blank_line(#[trigger] n[ls2 + k], w, seqno)
                &&& forall|k: int| end <= k < old(self).visible_rows ==> #[trigger] n[ls2 + k] == o[old(self).live_start_spec() + k]
            }),
    {
        let ghost o = self.lines();
        if add > 0 {
            self.fill_blank_rows(add, width, seqno);
        }
        let ghost f = self.lines();
        let ghost fr = self.rows.rows();
        proof {
            self.rows.lemma_wf();
            assert forall|i: int| add <= i < f.len() implies #[trigger] f[i] == o[i - add] by {
                if add > 0 {
                    assert(f.subrange(add as int, f.len() as int)[i - add] == f[i]);
                }
            }
        }
        self.rows.rotate(-(positions as isize));
        let ghost r = self.lines();
        proof {
            assert forall|i: int| 0 <= i < f.len() - positions implies #[trigger] r[i] == f[i + positions] by {
                assert(self.rows.rows()[i] == fr[i + positions]);
            }
        }
        let visible = self.visible_rows as usize;
        self.shift_down(end - positions, visible, positions);
        let ghost t = self.lines();
        self.reset_lines(end - positions, end, width, seqno);
        proof {
            let ls2 = self.live_start_spec();
            let n = self.lines();
            assert forall|j: int| 0 <= j < ls2 + end - positions implies #[trigger] n[j] == o[j + positions - add] by {
                assert(n[j] == t[j]);
                assert(t[j] == r[j]);
                assert(r[j] == f[j + positions]);
            }
            assert forall|k: int| end <= k < self.visible_rows implies #[trigger] n[ls2 + k] == o[old(self).live_start_spec() + k] by {
                assert(n[ls2 + k] == t[ls2 + k]);
                assert(t[ls2 + k] == r[ls2 + k - positions]);
                assert(r[ls2 + k - positions] == f[ls2 + k]);
            }
        }
    }

    /// Scrolls screen lines `0..end` up by `positions` lines, as `top_scrolled_up` says.
    #[verifier::spinoff_prover]
    fn scroll_from_top(&mut self, end: usize, positions: usize, width: usize, scrollback_limit: usize, seqno: u64)
        requires
            old(self).wf(),
            old(self).room(0x10000),
            1 <= positions <= end <= old(self).visible_rows,
        ensures
            old(self).scrolled(final(self)),
            final(self).stable_row_offset == old(self).stable_row_offset,
            old(self).top_scrolled_up(final(self), end as int, positions as int, width, scrollback_limit, seqno),
            final(self).current_input_start == reconciled(final(self).rows.rows(), old(self).current_input_start),
    {
        let ghost o = self.lines();
        let ghost ls = self.live_start_spec();
        if self.display_offset != 0 {
            let d = self.display_offset + positions;
            self.display_offset = if d < scrollback_limit {
                d
            } else {
                scrollback_limit
            };
        }
        let history = self.history_size();
        let add = if positions < scrollback_limit.saturating_sub(history) {
            positions
        } else {
            scrollback_limit.saturating_sub(history)
        };
        self.scroll_top_up(end, positions, add, width, seqno);
        let ghost rows0 = self.rows;
        let ghost n0 = self.lines();
        self.reconcile_current_input_start();
        self.clamp_display_offset();
        proof {
            assert(self.rows == rows0);
            assert(self.lines() == n0);
            let ls2 = ls + add;
            assert forall|j: int| 0 <= j < ls2 + end - positions implies #[trigger] self.lines()[j] == o[j + positions - add] by {
                assert(n0[j] == o[j + positions - add]);
            }
        }
    }

    /// Scrolls screen lines `start..end` (below the top line) up by `positions` lines, as
    /// `inner_scrolled_up` says.
    #[verifier::spinoff_prover]
    fn scroll_within(&mut self, start: usize, end: usize, positions: usize, width: usize, scrollback_limit: usize, seqno: u64)
        requires
            old(self).wf(),
            1 <= start,
            1 <= positions,
            end <= old(self).visible_rows,
            positions <= if end > start { end - start } else { 1 },
        ensures
            old(self).scrolled(final(self)),
            final(self).stable_row_offset == old(self).stable_row_offset,
            old(self).inner_scrolled_up(final(self), start as int, end as int, positions as int, width, scrollback_limit, seqno),
            final(self).current_input_start == reconciled(final(self).rows.rows(), old(self).current_input_start),
    {
        let ghost o = self.lines();
        let ghost ls = self.live_start_spec();
        let ghost w: int = if width > 1 { width as int } else { 1 };
        if end <= start || end - start <= positions {
            if start < end {
                self.reset_lines(start, end, width, seqno);
                proof {
                    let n = self.lines();
                    assert forall|k: int| start <= k < end && end - positions <= k implies is_blank_line(#[trigger] n[ls + k], w, seqno) by {
                        assert(start <= k < end);
                    }
                    assert(region_scrolled_up(o, n, ls, start as int, end as int, positions as int, w, seqno));
                }
            } else {
                proof {
                    assert(region_scrolled_up(o, self.lines(), ls, start as int, end as int, positions as int, w, seqno));
                }
            }
            let ghost rows0 = self.rows;
            self.reconcile_current_input_start();
            self.clamp_display_offset();
            proof {
                assert(self.rows == rows0);
            }
            return;
        }
        if self.display_offset != 0 {
            let d = self.display_offset + positions;
            self.display_offset = if d < scrollback_limit {
                d
            } else {
                scrollback_limit
            };
        }
        self.shift_up(start, end, positions);
        self.reset_lines(end - positions, end, width, seqno);
        proof {
            assert(region_scrolled_up(o, self.lines(), ls, start as int, end as int, positions as int, w, seqno));
        }
        let ghost rows0 = self.rows;
        self.reconcile_current_input_start();
        self.clamp_display_offset();
        proof {
            assert(self.rows == rows0);
        }
    }

    /// Scrolls screen lines `start..=end` up by `positions` lines (at least one, at most the
    /// region), blank lines coming in at the bottom of the region, as `scrolled_up_range` says.
    /// A region starting at the top line pushes its top lines into the scrollback, which grows
    /// by at most up to `scrollback_limit` rows; beyond that the oldest rows are reused.
    pub(crate) fn scroll_up_range(&mut self, start: u16, end: u16, positions: usize, width: usize, scrollback_limit: usize, seqno: u64)
        requires
            old(self).wf(),
            old(self).room(0x10000),
        ensures
            old(self).scrolled(final(self)),
            final(self).stable_row_offset == old(self).stable_row_offset,
            old(self).scrolled_up_range(final(self), start, end, positions, width, scrollback_limit, seqno),
    {
        let max_row = self.visible_rows - 1;
        let start: usize = if start < max_row {
            start as usize
        } else {
            max_row as usize
        };
        let end: usize = if end < max_row {
            end as usize
        } else {
            max_row as usize
        } + 1;
        let region_len = end.saturating_sub(start);
        let p0 = if positions > 1 {
            positions
        } else {
            1
        };
        let r1 = if region_len > 1 {
            region_len
        } else {
            1
        };
        let positions = if p0 < r1 {
            p0
        } else {
            r1
        };
        if start == 0 {
            self.scroll_from_top(end, positions, width, scrollback_limit, seqno);
        } else {
            self.scroll_within(start, end, positions, width, scrollback_limit, seqno);
        }
    }

    /// What scrolling screen lines `start..=end` down by `positions` lines does to this
    /// buffer, giving `other`, the lines and the step clamped to the screen and the region: the
    /// lines `p` above each line of the region move down, `p` blank lines `width` wide come in at
    /// its top, and the other screen lines stay. With scrollback the scrollback stays too;
    /// without (`limit` zero), when the region is not blanked whole, the rows are turned, so the
    /// scrollback moves down `p` rows, its newest `p` rows dropping out.
    pub open spec fn scrolled_down_range(&self, other: &Self, start: u16, end: u16, positions: usize, width: usize, limit: usize, seqno: u64) -> bool {
        let s = self.clamp_line(start);
        let e = self.clamp_line(end) + 1;
        let p = self.scroll_step(start, end, positions);
        let w = if width > 1 { width as int } else { 1 };
        let o = self.lines();
        let n = other.lines();
        let ls = self.live_start_spec();
        &&& other.len() == self.len()
        &&& other.display_offset == self.display_offset
        &&& other.current_input_start == reconciled(other.rows.rows(), self.current_input_start)
        &&& region_scrolled_down(o, n, ls, self.visible_rows as int, s, e, p, w, seqno)
        &&& if limit == 0 && e - s > p {
            forall|i: int| p <= i < ls ==> #[trigger] n[i] == o[i - p]
        } else {
            forall|i: int| 0 <= i < ls ==> #[trigger] n[i] == o[i]
        }
    }

    /// Scrolls screen lines `start..end` down by `positions` lines by turning the rows: the
    /// scrollback moves down with them.
    #[verifier::spinoff_prover]
    fn scroll_down_turning(&mut self, start: usize, end: usize, positions: usize, width: usize, seqno: u64)
        requires
            old(self).wf(),
            1 <= positions,
            start + positions < end <= old(self).visible_rows,
        ensures
            old(self).scrolled(final(self)),
            final(self).len() == old(self).len(),
            *final(self) == (ScreenBuffer { rows: final(self).rows, next_row_id: final(self).next_row_id, ..*old(self) }),
            region_scrolled_down(
                old(self).lines(),
                final(self).lines(),
                old(self).live_start_spec(),
                old(self).visible_rows as int,
                start as int,
                end as int,
                positions as int,
                if width > 1 { width as int } else { 1 },
                seqno,
            ),
            forall|i: int| positions <= i < old(self).live_start_spec() ==> #[trigger] final(self).lines()[i] == old(self).lines()[i - positions],
    {
        let ghost o = self.lines();
        let ghost ls = self.live_start_spec();
        let ghost w: int = if width > 1 { width as int } else { 1 };
        let visible = self.visible_rows as usize;
        self.shift_up(end - positions, visible, positions);
        let ghost a = self.lines();
        let ghost ar = self.rows.rows();
        proof {
            self.rows.lemma_wf();
        }
        self.rows.rotate_down(positions);
        let ghost b = self.lines();
        proof {
            assert forall|i: int| positions <= i < o.len() implies #[trigger] b[i] == a[i - positions] by {
                assert(self.rows.rows()[i] == ar[i - positions]);
            }
        }
        self.reset_lines(0, positions, width, seqno);
        let ghost c = self.lines();
        self.shift_up(0, start + positions, positions);
        proof {
            let d = self.lines();
            assert forall|k: int| start <= k < end && k < start + positions implies is_blank_line(#[trigger] d[ls + k], w, seqno) by {
                assert(among(d[ls + k], c, ls, ls + positions));
                let j = choose|j: int| ls <= j < ls + positions && d[ls + k] == #[trigger] c[j];
                assert(is_blank_line(c[ls + (j - ls)], w, seqno));
            }
            assert forall|k: int| start + positions <= k < end implies #[trigger] d[ls + k] == o[ls + k - positions] by {
                assert(d[ls + k] == c[ls + k]);
                assert(c[ls + k] == b[ls + k]);
                assert(b[ls + k] == a[ls + k - positions]);
            }
            assert forall|i: int| ls <= i < ls + self.visible_rows && !(ls + start <= i < ls + end) implies #[trigger] d[i] == o[i] by {
                if i < ls + start {
                    let k = i - ls;
                    assert(d[ls + k] == c[ls + k + positions]);
                    assert(c[i + positions] == b[i + positions]);
                    assert(b[i + positions] == a[i]);
                    assert(a[i] == o[i]);
                } else {
                    assert(d[i] == c[i]);
                    assert(c[i] == b[i]);
                    assert(b[i] == a[i - positions]);
                    let k = i - positions - ls;
                    assert(a[ls + k] == o[ls + k + positions]);
                }
            }
            assert forall|i: int| positions <= i < ls implies #[trigger] d[i] == o[i - positions] by {
                assert(d[i] == c[i]);
                assert(c[i] == b[i]);
                assert(b[i] == a[i - positions]);
            }
        }
    }

    /// Scrolls screen lines `start..end` down by `positions` lines, one line at a time, or
    /// blanks them all where the region is no longer than `positions`; the scrollback stays.
    #[verifier::spinoff_prover]
    fn scroll_down_shifting(&mut self, start: usize, end: usize, positions: usize, width: usize, seqno: u64)
        requires
            old(self).wf(),
            1 <= positions,
            end <= old(self).visible_rows,
            positions <= if end > start { end - start } else { 1 },
        ensures
            old(self).scrolled(final(self)),
            final(self).len() == old(self).len(),
            *final(self) == (ScreenBuffer { rows: final(self).rows, next_row_id: final(self).next_row_id, ..*old(self) }),
            region_scrolled_down(
                old(self).lines(),
                final(self).lines(),
                old(self).live_start_spec(),
                old(self).visible_rows as int,
                start as int,
                end as int,
                positions as int,
                if width > 1 { width as int } else { 1 },
                seqno,
            ),
            forall|i: int| 0 <= i < old(self).live_start_spec() ==> #[trigger] final(self).lines()[i] == old(self).lines()[i],
    {
        let ghost ls = self.live_start_spec();
        let ghost w: int = if width > 1 { width as int } else { 1 };
        if end <= start || end - start <= positions {
            if start < end {
                self.reset_lines(start, end, width, seqno);
            }
            proof {
                let n = self.lines();
                assert forall|k: int| start <= k < end && k < start + positions implies is_blank_line(#[trigger] n[ls + k], w, seqno) by {}
            }
        } else {
            self.shift_down(start, end, positions);
            self.reset_lines(start, start + positions, width, seqno);
            proof {
                let n = self.lines();
                assert forall|k: int| start <= k < end && k < start + positions implies is_blank_line(#[trigger] n[ls + k], w, seqno) by {}
            }
        }
    }

    /// Scrolls screen lines `start..=end` down by `positions` lines (at least one, at most the
    /// region), blank lines coming in at the top of the region, as `scrolled_down_range` says.
    /// Without scrollback the buffer turns its rows rather than moving lines one by one.
    pub(crate) fn scroll_down_range(&mut self, start: u16, end: u16, positions: usize, width: usize, scrollback_limit: usize, seqno: u64)
        requires
            old(self).wf(),
        ensures
            old(self).scrolled(final(self)),
            final(self).stable_row_offset == old(self).stable_row_offset,
            old(self).scrolled_down_range(final(self), start, end, positions, width, scrollback_limit, seqno),
    {
        let max_row = self.visible_rows - 1;
        let start: usize = if start < max_row {
            start as usize
        } else {
            max_row as usize
        };
        let end: usize = if end < max_row {
            end as usize
        } else {
            max_row as usize
        } + 1;
        let region_len = end.saturating_sub(start);
        let p0 = if positions > 1 {
            positions
        } else {
            1
        };
        let r1 = if region_len > 1 {
            region_len
        } else {
            1
        };
        let positions = if p0 < r1 {
            p0
        } else {
            r1
        };
        if scrollback_limit == 0 && region_len > positions {
            self.scroll_down_turning(start, end, positions, width, seqno);
        } else {
            self.scroll_down_shifting(start, end, positions, width, seqno);
        }
        let ghost rows0 = self.rows;
        self.reconcile_current_input_start();
        self.clamp_display_offset();
        proof {
            assert(self.rows == rows0);
        }
    }

    /// `other` is this buffer with the oldest rows beyond `limit` rows of scrollback dropped: the
    /// same buffer where there are none; else the newest rows kept, the stable indexes moved on
    /// past the dropped rows, the view kept within the scrollback and the current input
    /// reconciled with the rows kept.
    pub open spec fn scrollback_trimmed(&self, other: &Self, limit: usize) -> bool {
        if self.len() <= self.visible_rows + limit {
            *other == *self
        } else {
            let d = self.len() - self.visible_rows - limit;
            &&& self.scrolled(other)
            &&& other.len() == self.visible_rows + limit
            &&& other.rows.rows() == self.rows.rows().subrange(d, self.len() as int)
            &&& other.stable_row_offset == self.stable_row_offset + d
            &&& other.display_offset == if self.display_offset < other.history() { self.display_offset as int } else { other.history() }
            &&& other.current_input_start == reconciled(other.rows.rows(), self.current_input_start)
            &&& other.next_row_id == self.next_row_id
        }
    }

    /// Drops the oldest rows beyond `limit` rows of scrollback.
    pub(crate) fn trim_scrollback(&mut self, limit: usize)
        requires
            old(self).wf(),
        ensures
            old(self).scrollback_trimmed(final(self), limit),
            old(self).scrolled(final(self)),
            old(self).len() <= old(self).visible_rows + limit ==> *final(self) == *old(self),
            final(self).len() == if old(self).len() <= old(self).visible_rows + limit {
                old(self).len()
            } else {
                old(self).visible_rows + limit
            },
            final(self).stable_row_offset + final(self).len() == old(self).stable_row_offset + old(self).len(),
            final(self).lines() == old(self).lines().subrange(old(self).len() - final(self).len(), old(self).len()),
            final(self).rows.rows() == old(self).rows.rows().subrange(old(self).len() - final(self).len(), old(self).len()),
            old(self).len() > old(self).visible_rows + limit ==> final(self).current_input_start == reconciled(
                final(self).rows.rows(),
                old(self).current_input_start,
            ),
    {
        let visible = self.visible_rows as usize;
        if self.rows.len() - visible <= limit {
            proof {
                assert(old(self).rows.rows().subrange(0, old(self).len()) =~= old(self).rows.rows());
            }
            proof {
                assert(old(self).lines().subrange(0, old(self).len()) =~= old(self).lines());
            }
            return;
        }
        let max_total = visible + limit;
        let remove = self.rows.len() - max_total;
        let mut rows = self.rows.take_all();
        let kept = rows.split_off(remove);
        self.rows.replace_inner(kept);
        proof {
            assert(self.lines() =~= old(self).lines().subrange(remove as int, old(self).len()));
        }
        self.stable_row_offset = self.stable_row_offset + remove;
        self.clamp_display_offset();
        self.reconcile_current_input_start();
    }

    /// Drops every row above the screen.
    pub(crate) fn clear_scrollback(&mut self)
        requires
            old(self).wf(),
        ensures
            old(self).scrolled(final(self)),
            final(self).len() == old(self).visible_rows,
            final(self).display_offset == 0,
            final(self).stable_row_offset == old(self).stable_row_offset + old(self).history(),
            final(self).lines() == old(self).lines().subrange(old(self).history(), old(self).len()),
            final(self).current_input_start == reconciled(final(self).rows.rows(), old(self).current_input_start),
    {
        let removed = self.live_start();
        let mut rows = self.rows.take_all();
        let kept = rows.split_off(removed);
        self.rows.replace_inner(kept);
        proof {
            assert(self.lines() =~= old(self).lines().subrange(old(self).history(), old(self).len()));
        }
        self.stable_row_offset = self.stable_row_offset + removed;
        self.display_offset = 0;
        self.reconcile_current_input_start();
    }

    /// `other` holds the rows of this buffer with the scrollback cut to `limit` rows, the oldest
    /// dropped.
    pub open spec fn trimmed_to(&self, other: &Self, limit: usize) -> bool {
        other.lines() == if self.len() <= self.visible_rows + limit {
            self.lines()
        } else {
            self.lines().subrange(self.len() - self.visible_rows - limit, self.len())
        }
    }

    /// What scrolling the region up by `count` lines does to the buffer, as `scroll_up_region`
    /// states it: the region scrolled up as `scrolled_up_range` says, then the scrollback cut
    /// to `scrollback_limit` rows.
    pub open spec fn scrolled_up_by(&self, other: &Self, cols: u16, count: u16, scrollback_limit: usize, seqno: u64) -> bool {
        &&& exists|mid: Self| self.scrolled(&mid) && self.scrolled_up_range(
            &mid,
            self.scroll_top,
            self.scroll_bottom,
            if count > 1 { count as usize } else { 1 },
            cols as usize,
            scrollback_limit,
            seqno,
        ) && #[trigger] mid.trimmed_to(other, scrollback_limit) && mid.scrollback_trimmed(other, scrollback_limit)
        &&& other.current_input_start == reconciled(other.rows.rows(), self.current_input_start)
        &&& self.scrolled(other)
        &&& other.len() <= if self.len() > self.visible_rows + scrollback_limit {
            self.len()
        } else {
            self.visible_rows + scrollback_limit
        }
        &&& other.len() <= self.visible_rows + scrollback_limit
        &&& other.stable_row_offset + other.len() <= self.stable_row_offset + self.len()
            + if count > 1 { count as int } else { 1 }
    }

    /// Scrolls the scroll region up by `count` lines (at least one), then trims the scrollback.
    pub(crate) fn scroll_up_region(&mut self, cols: u16, count: u16, scrollback_limit: usize, seqno: u64)
        requires
            old(self).wf(),
            old(self).room(0x10000),
            cols >= 1,
        ensures
            old(self).scrolled_up_by(final(self), cols, count, scrollback_limit, seqno),
    {
        let positions: usize = if count > 1 {
            count as usize
        } else {
            1
        };
        self.scroll_up_range(self.scroll_top, self.scroll_bottom, positions, cols as usize, scrollback_limit, seqno);
        let ghost mid = *self;
        self.trim_scrollback(scrollback_limit);
        proof {
            assert(old(self).scrolled_up_range(&mid, old(self).scroll_top, old(self).scroll_bottom, positions, cols as usize, scrollback_limit, seqno));
            assert(mid.trimmed_to(self, scrollback_limit));
            mid.rows.lemma_wf();
            lemma_reconciled_tail(mid.rows.rows(), mid.len() - self.len(), old(self).current_input_start);
            if mid.len() <= mid.visible_rows + scrollback_limit {
                assert(mid.rows.rows().subrange(0, mid.len() as int) =~= mid.rows.rows());
            }
        }
    }

    /// What scrolling the region down by `count` lines does to the buffer, as `scroll_down_region`
    /// states it: the region scrolled down as `scrolled_down_range` says.
    pub open spec fn scrolled_down_by(&self, other: &Self, cols: u16, count: u16, scrollback_limit: usize, seqno: u64) -> bool {
        &&& self.scrolled_down_range(
            other,
            self.scroll_top,
            self.scroll_bottom,
            if count > 1 { count as usize } else { 1 },
            cols as usize,
            scrollback_limit,
            seqno,
        )
        &&& self.scrolled(other)
        &&& other.len() == self.len()
        &&& other.stable_row_offset == self.stable_row_offset
    }

    /// Scrolls the scroll region down by `count` lines (at least one).
    pub(crate) fn scroll_down_region(&mut self, cols: u16, count: u16, scrollback_limit: usize, seqno: u64)
        requires
            old(self).wf(),
            cols >= 1,
        ensures
            old(self).scrolled_down_by(final(self), cols, count, scrollback_limit, seqno),
    {
        let positions: usize = if count > 1 {
            count as usize
        } else {
            1
        };
        self.scroll_down_range(self.scroll_top, self.scroll_bottom, positions, cols as usize, scrollback_limit, seqno);
    }

    /// What inserting blank lines at the cursor does to the buffer, as `insert_lines` states it:
    /// with the cursor in the scroll region, the lines from the cursor row to the bottom of the
    /// region scrolled down as `scrolled_down_range` says without scrollback; else nothing.
    pub open spec fn lines_inserted(&self, other: &Self, count: u16, cols: u16, seqno: u64) -> bool {
        &&& if self.scroll_top <= self.cursor.row <= self.scroll_bottom {
            self.scrolled_down_range(
                other,
                self.cursor.row,
                self.scroll_bottom,
                if count > 1 { count as usize } else { 1 },
                cols as usize,
                0,
                seqno,
            )
        } else {
            *other == *self
        }
        &&& self.scrolled(other)
        &&& other.len() == self.len()
        &&& other.stable_row_offset == self.stable_row_offset
    }

    /// Inserts `count` blank lines (at least one) at the cursor row, within the scroll region.
    pub(crate) fn insert_lines(&mut self, count: u16, cols: u16, seqno: u64)
        requires
            old(self).wf(),
            cols >= 1,
        ensures
            old(self).lines_inserted(final(self), count, cols, seqno),
    {
        if self.cursor.row < self.scroll_top || self.cursor.row > self.scroll_bottom {
            return;
        }
        let positions: usize = if count > 1 {
            count as usize
        } else {
            1
        };
        self.scroll_down_range(self.cursor.row, self.scroll_bottom, positions, cols as usize, 0, seqno);
    }

    /// What deleting lines at the cursor does to the buffer, as `delete_lines` states it: with
    /// the cursor in the scroll region, the lines from the cursor row to the bottom of the
    /// region scrolled up as `scrolled_up_range` says without scrollback; else nothing.
    pub open spec fn lines_deleted(&self, other: &Self, count: u16, cols: u16, seqno: u64) -> bool {
        &&& if self.scroll_top <= self.cursor.row <= self.scroll_bottom {
            self.scrolled_up_range(
                other,
                self.cursor.row,
                self.scroll_bottom,
                if count > 1 { count as usize } else { 1 },
                cols as usize,
                0,
                seqno,
            )
        } else {
            *other == *self
        }
        &&& self.scrolled(other)
        &&& other.len() == self.len()
        &&& other.stable_row_offset == self.stable_row_offset
    }

    /// Deletes `count` lines (at least one) at the cursor row, within the scroll region.
    pub(crate) fn delete_lines(&mut self, count: u16, cols: u16, seqno: u64)
        requires
            old(self).wf(),
            old(self).room(0x10000),
            cols >= 1,
        ensures
            old(self).lines_deleted(final(self), count, cols, seqno),
    {
        if self.cursor.row < self.scroll_top || self.cursor.row > self.scroll_bottom {
            return;
        }
        let positions: usize = if count > 1 {
            count as usize
        } else {
            1
        };
        self.scroll_up_range(self.cursor.row, self.scroll_bottom, positions, cols as usize, 0, seqno);
    }

    /// Blanks columns `start..end` of row `absolute`, with any wide character they cut into.
    /// Blanking a whole row also ends its wrapping.
    pub(crate) fn clear_row_range(&mut self, absolute: usize, start: usize, end: usize, width: usize, seqno: u64)
        requires
            old(self).wf(),
            absolute < old(self).len(),
            width >= 1,
        ensures
            final(self).wf(),
            old(self).with_line(
                final(self),
                absolute as int,
                cleared_line(old(self).lines()[absolute as int], start as int, end as int, width as int, seqno),
            ),
    {
        let full_row = start == 0 && end >= width;
        let mut cells = self.expanded_row_cells(absolute, width);
        let lo = if start < width {
            start
        } else {
            width
        };
        let hi = if end < width {
            end
        } else {
            width
        };
        let ghost base = views(cells@);
        assert(views(cells@).len() == cells@.len());
        let mut col = lo;
        while col < hi
            invariant
                lo <= col,
                col <= hi || (hi < lo && col == lo),
                hi <= width,
                cells@.len() == width,
                views(cells@) == clear_cols(base, lo as int, col as int, width as int),
            decreases hi - col,
        {
            let ghost before = views(cells@);
            clear_overlap(&mut cells, col, width);
            cells.set(col, TerminalCell::blank());
            proof {
                assert(views(cells@) =~= clear_overlap_view(before, col as int, width as int).update(col as int, blank_view()));
                lemma_clear_cols_step(base, lo as int, col as int, width as int);
            }
            col = col + 1;
        }
        proof {
            if hi < lo {
                assert(clear_cols(base, lo as int, hi as int, width as int) == base);
            }
        }
        let old_wrapped = self.line_at(absolute).wrapped;
        let wrapped = if full_row {
            false
        } else {
            old_wrapped
        };
        assert(views(cells@) == clear_cols(base, lo as int, hi as int, width as int));
        assert(wrapped == if start == 0 && end >= width { false } else { old(self).lines()[absolute as int].2 });
        normalize_cells(&mut cells, width);
        self.replace_row_cells(absolute, cells, wrapped, width, seqno);
    }
}

/// `a + b`, or `u64::MAX` where that is larger.
pub open spec fn sat_add_u64(a: u64, b: u64) -> u64 {
    if a + b > u64::MAX {
        u64::MAX
    } else {
        (a + b) as u64
    }
}

/// The cells of `v` with columns `start..end` blanked one by one, each with the wide character
/// it cuts into.
pub open spec fn clear_cols(v: Seq<CellView>, start: int, end: int, width: int) -> Seq<CellView>
    decreases end - start,
{
    if end <= start {
        v
    } else {
        clear_overlap_view(clear_cols(v, start, end - 1, width), end - 1, width).update(end - 1, blank_view())
    }
}

proof fn lemma_clear_cols_step(v: Seq<CellView>, start: int, end: int, width: int)
    requires
        start <= end,
    ensures
        clear_cols(v, start, end + 1, width) == clear_overlap_view(clear_cols(v, start, end, width), end, width).update(end, blank_view()),
{
}

/// How many leading cells reach the last non-blank one.
pub open spec fn occupied_views(v: Seq<CellView>) -> nat
    decreases v.len(),
{
    if v.len() == 0 {
        0
    } else if v.last() != blank_view() {
        v.len()
    } else {
        occupied_views(v.drop_last())
    }
}

/// The occupied width of a row of cells is that of what they hold.
pub proof fn lemma_occupied_views(s: Seq<TerminalCell>)
    ensures
        crate::grid::row::occupied_len(s) == occupied_views(views(s)),
    decreases s.len(),
{
    if s.len() > 0 {
        assert(views(s).drop_last() =~= views(s.drop_last()));
        assert(views(s).last() == s.last()@);
        lemma_occupied_views(s.drop_last());
    }
}

/// The occupied width of a row lies within it.
pub proof fn lemma_occupied_views_le(v: Seq<CellView>)
    ensures
        occupied_views(v) <= v.len(),
    decreases v.len(),
{
    if v.len() > 0 {
        lemma_occupied_views_le(v.drop_last());
    }
}

/// Blanking columns `start..end` of a row of `width` cells with no wide characters blanks
/// exactly those cells.
pub proof fn lemma_clear_cols_plain(v: Seq<CellView>, start: int, end: int, width: int)
    requires
        v.len() == width,
        plain_cells(v),
        0 <= start,
        end <= width,
    ensures
        clear_cols(v, start, end, width).len() == width,
        plain_cells(clear_cols(v, start, end, width)),
        forall|i: int| 0 <= i < width ==> #[trigger] clear_cols(v, start, end, width)[i] == if start <= i < end { blank_view() } else { v[i] },
    decreases end - start,
{
    if end > start {
        lemma_clear_cols_plain(v, start, end - 1, width);
        let s = clear_cols(v, start, end - 1, width);
        assert(clear_overlap_view(s, end - 1, width) =~= s);
    }
}

/// Blanking columns `0..end` of a row of `width` cells leaves those cells blank.
pub proof fn lemma_clear_cols_blank(v: Seq<CellView>, end: int, width: int)
    requires
        v.len() == width,
        0 <= end <= width,
    ensures
        clear_cols(v, 0, end, width).len() == width,
        forall|i: int| 0 <= i < end ==> #[trigger] clear_cols(v, 0, end, width)[i] == blank_view(),
    decreases end,
{
    if end > 0 {
        lemma_clear_cols_blank(v, end - 1, width);
    }
}

/// Repairing a row of blank cells leaves them blank.
pub proof fn lemma_normalize_from_blank(s: Seq<CellView>, col: int, width: int)
    requires
        s.len() == width,
        forall|i: int| 0 <= i < width ==> #[trigger] s[i] == blank_view(),
    ensures
        normalize_from(s, col, width) == s,
    decreases width - col,
{
    if !(col >= width || col < 0) {
        let (t, next) = normalize_step(s, col, width);
        assert(t == s);
        lemma_normalize_from_blank(t, next, width);
    }
}

/// A row of blank cells occupies none of them.
pub proof fn lemma_occupied_views_blank(v: Seq<CellView>)
    requires
        forall|i: int| 0 <= i < v.len() ==> #[trigger] v[i] == blank_view(),
    ensures
        occupied_views(v) == 0,
    decreases v.len(),
{
    if v.len() > 0 {
        assert(v.last() == v[v.len() - 1]);
        lemma_occupied_views_blank(v.drop_last());
    }
}

/// Blanking a whole row at `width` columns (at least one) leaves a blank row.
pub proof fn lemma_cleared_line_blank(line: LineView, width: int, seqno: u64)
    requires
        width >= 1,
    ensures
        is_blank_line(cleared_line(line, 0, width, width, seqno), width, seqno),
        cleared_line(line, 0, width, width, seqno).0.len() == width,
{
    let r = resize_view(line.0, width);
    assert(r.len() == width);
    lemma_clear_cols_blank(r, width, width);
    let c = clear_cols(r, 0, width, width);
    lemma_resize_view_full(c, width);
    lemma_normalize_from_blank(c, 0, width);
    assert(normalize_view(c, width) == c);
    lemma_occupied_views_blank(c);
}

/// A buffer as a reset leaves it: `rows` blank rows of `cols` cells stamped `seqno`, the cursor
/// and saved cursor at the origin, default attributes, the whole screen as scroll region and
/// nothing scrolled.
pub open spec fn fresh(b: ScreenBuffer, rows: u16, cols: u16, seqno: u64) -> bool {
    &&& b.wf()
    &&& b.visible_rows == rows
    &&& b.len() == rows
    &&& forall|i: int| 0 <= i < b.len() ==> is_blank_line(#[trigger] b.lines()[i], cols as int, seqno) && b.lines()[i].0.len() == cols
    &&& b.cursor == origin()
    &&& b.saved_cursor == (SavedCursor { cursor: origin(), attrs: default_attrs() })
    &&& b.attrs == default_attrs()
    &&& b.scroll_top == 0
    &&& b.scroll_bottom == rows - 1
    &&& !b.pending_wrap
    &&& b.display_offset == 0
    &&& b.stable_row_offset == 0
}

/// Row `line` with columns `start..end` blanked, as `clear_row_range` leaves it at `width`
/// columns: repaired, and no longer wrapping where the whole row was blanked.
pub open spec fn cleared_line(line: LineView, start: int, end: int, width: int, seqno: u64) -> LineView {
    let lo = if start < width { start } else { width };
    let hi = if end < width { end } else { width };
    let v = normalize_view(normalize_view(clear_cols(resize_view(line.0, width), lo, hi, width), width), width);
    (v, occupied_views(v) as usize, if start == 0 && end >= width { false } else { line.2 }, seqno)
}

/// The index of the first of `rows` from `i` on with identity `id`.
pub open spec fn first_with_id(rows: Seq<Row>, id: u64, i: int) -> Option<int>
    decreases rows.len() - i,
{
    if i < 0 || i >= rows.len() {
        None
    } else if rows[i].id_spec() == id {
        Some(i)
    } else {
        first_with_id(rows, id, i + 1)
    }
}

/// The row the current input starts on once the rows are `rows`: the row `start` names where it
/// is still among them, and the bottom row where it has gone.
pub open spec fn reconciled(rows: Seq<Row>, start: Option<u64>) -> Option<u64> {
    match start {
        Some(id) => if first_with_id(rows, id, 0) is Some { Some(id) } else { Some(rows.last().id_spec()) },
        None => None,
    }
}

/// A row with identity `id` is found from any row at or before it.
pub proof fn lemma_first_with_id_found(rows: Seq<Row>, id: u64, i: int, k: int)
    requires
        0 <= i <= k < rows.len(),
        rows[k].id_spec() == id,
    ensures
        first_with_id(rows, id, i) is Some,
    decreases k - i,
{
    if rows[i].id_spec() != id {
        lemma_first_with_id_found(rows, id, i + 1, k);
    }
}

/// Reconciling against all rows and then against a tail of them is reconciling against the
/// tail alone.
pub proof fn lemma_reconciled_tail(rows: Seq<Row>, d: int, start: Option<u64>)
    requires
        0 <= d < rows.len(),
    ensures
        reconciled(rows.subrange(d, rows.len() as int), reconciled(rows, start))
            == reconciled(rows.subrange(d, rows.len() as int), start),
{
    let tail = rows.subrange(d, rows.len() as int);
    lemma_first_with_id_found(tail, tail.last().id_spec(), 0, tail.len() - 1);
    if let Some(id) = start {
        if let Some(j) = first_with_id(tail, id, 0) {
            lemma_first_with_id(tail, id, 0);
            assert(rows[d + j] == tail[j]);
            lemma_first_with_id_found(rows, id, 0, d + j);
        }
        assert(rows.last() == tail.last());
    }
}

/// Reconciling twice against the same rows is reconciling once.
pub proof fn lemma_reconciled_twice(rows: Seq<Row>, start: Option<u64>)
    requires
        rows.len() >= 1,
    ensures
        reconciled(rows, reconciled(rows, start)) == reconciled(rows, start),
{
    lemma_first_with_id_found(rows, rows.last().id_spec(), 0, rows.len() - 1);
}

/// The index `first_with_id` finds lies among the rows.
pub proof fn lemma_first_with_id(rows: Seq<Row>, id: u64, i: int)
    requires
        0 <= i,
    ensures
        first_with_id(rows, id, i) matches Some(j) ==> i <= j < rows.len() && rows[j].id_spec() == id,
    decreases rows.len() - i,
{
    if !(i < 0 || i >= rows.len()) && rows[i].id_spec() != id {
        lemma_first_with_id(rows, id, i + 1);
    }
}

} // verus!
