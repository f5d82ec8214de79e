//! Operations on the cells of one row.

use super::cells::{blank_view, continuation_view, string_push, CellView, TerminalCell};
use vstd::prelude::*;

verus! {

/// What each cell of `s` holds.
pub open spec fn views(s: Seq<TerminalCell>) -> Seq<CellView> {
    s.map_values(|c: TerminalCell| c@)
}

/// `v` cut or padded with blank cells to `width` cells.
pub open spec fn resize_view(v: Seq<CellView>, width: int) -> Seq<CellView> {
    if v.len() >= width {
        v.subrange(0, width)
    } else {
        v + Seq::new((width - v.len()) as nat, |_i: int| blank_view())
    }
}

/// Cuts or pads the row with blank cells to `width` cells.
pub fn resize_cells(cells: &mut Vec<TerminalCell>, width: usize)
    ensures
        final(cells)@.len() == width,
        views(final(cells)@) == resize_view(views(old(cells)@), width as int),
{
    if cells.len() >= width {
        cells.truncate(width);
        proof {
            assert(views(cells@) =~= resize_view(views(old(cells)@), width as int));
        }
        return;
    }
    let ghost start = views(cells@);
    while cells.len() < width
        invariant
            start.len() <= cells@.len() <= width,
            views(cells@).subrange(0, start.len() as int) == start,
            forall|i: int| start.len() <= i < cells@.len() ==> #[trigger] views(cells@)[i] == blank_view(),
        decreases width - cells@.len(),
    {
        let ghost prev = cells@;
        cells.push(TerminalCell::blank());
        proof {
            assert(views(cells@) =~= views(prev).push(blank_view()));
            assert(views(cells@).subrange(0, start.len() as int) =~= start);
        }
    }
    proof {
        assert(views(cells@) =~= resize_view(start, width as int));
    }
}

/// Whether clearing the overlaps at `col` empties the cell at `i`: a wide character or half
/// of one that covers `col` is removed whole.
pub open spec fn overlap_cleared(s: Seq<CellView>, col: int, width: int, i: int) -> bool {
    &&& col < width
    &&& {
        ||| (i == col - 1 && col > 0 && s[col - 1].2)
        ||| (i == col && (s[col].3 || s[col].2 || (col > 0 && s[col - 1].2)))
        ||| (i == col + 1 && col + 1 < width && s[col].2 && !s[col].3)
    }
}

/// `s` with the wide characters that overlap `col` removed.
pub open spec fn clear_overlap_view(s: Seq<CellView>, col: int, width: int) -> Seq<CellView> {
    Seq::new(s.len(), |i: int| if overlap_cleared(s, col, width, i) { blank_view() } else { s[i] })
}

/// Removes any wide character that overlaps column `col`, both of its halves.
pub fn clear_overlap(cells: &mut Vec<TerminalCell>, col: usize, width: usize)
    requires
        width <= old(cells)@.len(),
    ensures
        final(cells)@.len() == old(cells)@.len(),
        views(final(cells)@) == clear_overlap_view(views(old(cells)@), col as int, width as int),
{
    let ghost s = views(cells@);
    if col >= width {
        proof {
            assert(views(cells@) =~= clear_overlap_view(s, col as int, width as int));
        }
        return;
    }
    if cells[col].is_wide_continuation() {
        if col > 0 && cells[col - 1].wide() {
            cells.set(col - 1, TerminalCell::blank());
        }
        cells.set(col, TerminalCell::blank());
    }
    if cells[col].wide() {
        cells.set(col, TerminalCell::blank());
        if col + 1 < width {
            cells.set(col + 1, TerminalCell::blank());
        }
    }
    if col > 0 && cells[col - 1].wide() {
        cells.set(col - 1, TerminalCell::blank());
        cells.set(col, TerminalCell::blank());
    }
    proof {
        assert(views(cells@) =~= clear_overlap_view(s, col as int, width as int));
    }
}

/// One step of `normalize_view` at `col`: the row after it and the next column to look at.
pub open spec fn normalize_step(s: Seq<CellView>, col: int, width: int) -> (Seq<CellView>, int) {
    if s[col].3 {
        (if col == 0 || !s[col - 1].2 { s.update(col, blank_view()) } else { s }, col + 1)
    } else if s[col].2 {
        if col + 1 >= width {
            (s.update(col, blank_view()), col + 1)
        } else {
            (s.update(col + 1, continuation_view(s[col].1)), col + 2)
        }
    } else {
        (if col + 1 < width && s[col + 1].3 { s.update(col + 1, blank_view()) } else { s }, col + 1)
    }
}

/// The row after the left-to-right pass from `col` that pairs every wide character with its
/// right half and removes the halves that lost their wide character.
pub open spec fn normalize_from(s: Seq<CellView>, col: int, width: int) -> Seq<CellView>
    decreases width - col,
{
    if col >= width || col < 0 {
        s
    } else {
        let (t, next) = normalize_step(s, col, width);
        normalize_from(t, next, width)
    }
}

/// The row cut or padded to `width` cells, with every wide character followed by its right half
/// and every right half preceded by its wide character.
pub open spec fn normalize_view(v: Seq<CellView>, width: int) -> Seq<CellView> {
    normalize_from(resize_view(v, width), 0, width)
}

/// Repairing a row keeps its length.
pub proof fn lemma_normalize_from_len(s: Seq<CellView>, col: int, width: int)
    requires
        s.len() == width,
    ensures
        normalize_from(s, col, width).len() == width,
    decreases width - col,
{
    if !(col >= width || col < 0) {
        let (t, next) = normalize_step(s, col, width);
        lemma_normalize_from_len(t, next, width);
    }
}

/// A repaired row has `width` cells.
pub proof fn lemma_normalize_len(v: Seq<CellView>, width: int)
    requires
        width >= 0,
    ensures
        normalize_view(v, width).len() == width,
{
    lemma_normalize_from_len(resize_view(v, width), 0, width);
}

/// Repairing a row never makes a wide character where there was none.
pub proof fn lemma_normalize_from_no_new_wide(s: Seq<CellView>, col: int, width: int, k: int)
    requires
        s.len() == width,
        0 <= k < width,
        !s[k].2,
    ensures
        !normalize_from(s, col, width)[k].2,
    decreases width - col,
{
    if !(col >= width || col < 0) {
        let (t, next) = normalize_step(s, col, width);
        lemma_normalize_from_no_new_wide(t, next, width, k);
    }
}

/// Repairing a row from `i` keeps a one-column character at `col` where it is, so long as the
/// cell before it, if the pass reaches that cell, holds no wide character.
pub proof fn lemma_normalize_from_keeps_narrow(s: Seq<CellView>, i: int, col: int, width: int)
    requires
        s.len() == width,
        0 <= i <= col < width,
        !s[col].2,
        !s[col].3,
        i < col ==> !s[col - 1].2,
    ensures
        normalize_from(s, i, width)[col] == s[col],
    decreases width - i,
{
    let (t, next) = normalize_step(s, i, width);
    if i < col {
        assert(t[col] == s[col]);
        assert(next <= col);
        assert(next < col ==> !t[col - 1].2);
        lemma_normalize_from_keeps_narrow(t, next, col, width);
    } else {
        assert(t[col] == s[col]);
        lemma_normalize_from_keeps_after(t, next, col, width);
    }
}

/// Repairing a row from past `col` leaves the cell at `col` as it is.
pub proof fn lemma_normalize_from_keeps_after(s: Seq<CellView>, i: int, col: int, width: int)
    requires
        s.len() == width,
        0 <= col < i,
    ensures
        normalize_from(s, i, width)[col] == s[col],
    decreases width - i,
{
    if !(i >= width || i < 0) {
        let (t, next) = normalize_step(s, i, width);
        lemma_normalize_from_keeps_after(t, next, col, width);
    }
}

/// No cell of `v` is either half of a wide character.
pub open spec fn plain_cells(v: Seq<CellView>) -> bool {
    forall|i: int| 0 <= i < v.len() ==> !(#[trigger] v[i]).2 && !v[i].3
}

/// Repairing a row with no wide characters changes nothing.
pub proof fn lemma_normalize_from_plain(s: Seq<CellView>, col: int, width: int)
    requires
        s.len() == width,
        plain_cells(s),
    ensures
        normalize_from(s, col, width) == s,
    decreases width - col,
{
    if !(col >= width || col < 0) {
        let (t, next) = normalize_step(s, col, width);
        assert(t == s);
        lemma_normalize_from_plain(t, next, width);
    }
}

/// Repairing a row of `width` cells with no wide characters, once or twice, changes nothing.
pub proof fn lemma_normalize_view_plain(s: Seq<CellView>, width: int)
    requires
        s.len() == width,
        plain_cells(s),
    ensures
        normalize_view(s, width) == s,
        normalize_view(normalize_view(s, width), width) == s,
{
    lemma_resize_view_full(s, width);
    lemma_normalize_from_plain(s, 0, width);
}

/// A row of `width` cells is its own cut to `width`.
pub proof fn lemma_resize_view_full(v: Seq<CellView>, width: int)
    requires
        v.len() == width,
    ensures
        resize_view(v, width) == v,
{
    assert(v.subrange(0, width) =~= v);
}

/// Brings the row to `width` cells and repairs its wide characters.
pub fn normalize_cells(cells: &mut Vec<TerminalCell>, width: usize)
    ensures
        final(cells)@.len() == width,
        views(final(cells)@) == normalize_view(views(old(cells)@), width as int),
{
    resize_cells(cells, width);
    let ghost start = views(cells@);
    assert(views(cells@).len() == cells@.len());
    let mut col: usize = 0;
    while col < width
        invariant
            cells@.len() == width,
            col <= width + 1,
            normalize_from(views(cells@), col as int, width as int) == normalize_from(start, 0, width as int),
        decreases width - col,
    {
        let ghost before = views(cells@);
        if cells[col].is_wide_continuation() {
            if col == 0 || !cells[col - 1].wide() {
                cells.set(col, TerminalCell::blank());
            }
            proof {
                assert(views(cells@) =~= normalize_step(before, col as int, width as int).0);
            }
            col = col + 1;
            continue;
        }
        if cells[col].wide() {
            if col + 1 >= width {
                cells.set(col, TerminalCell::blank());
                proof {
                    assert(views(cells@) =~= normalize_step(before, col as int, width as int).0);
                }
                col = col + 1;
                continue;
            }
            let attrs = cells[col].attrs_value();
            cells.set(col + 1, TerminalCell::continuation(attrs));
            proof {
                assert(views(cells@) =~= normalize_step(before, col as int, width as int).0);
            }
            col = col + 2;
            continue;
        }
        if col + 1 < width && cells[col + 1].is_wide_continuation() {
            cells.set(col + 1, TerminalCell::blank());
        }
        proof {
            assert(views(cells@) =~= normalize_step(before, col as int, width as int).0);
        }
        col = col + 1;
    }
}


/// The text a cell contributes: nothing for the right half of a wide character, its text where it
/// has any, and a space otherwise; a space too past the end of the row.
pub open spec fn cell_text(v: Seq<CellView>, i: int) -> Seq<char> {
    if 0 <= i < v.len() {
        if v[i].3 {
            Seq::empty()
        } else if v[i].0.len() > 0 {
            v[i].0
        } else {
            seq![' ']
        }
    } else {
        seq![' ']
    }
}

/// The text of columns `start..end` of a row.
pub open spec fn text_view(v: Seq<CellView>, start: int, end: int) -> Seq<char>
    decreases end - start,
{
    if end <= start {
        Seq::empty()
    } else {
        text_view(v, start, end - 1) + cell_text(v, end - 1)
    }
}

/// The text of columns `start..end` of `cells`.
pub fn text_range(cells: &Vec<TerminalCell>, start: u16, end: u16) -> (r: String)
    ensures
        r@ == text_view(views(cells@), start as int, end as int),
{
    let mut text = String::new();
    let mut col: u16 = start;
    if end <= start {
        proof {
            assert(text@ =~= text_view(views(cells@), start as int, end as int));
        }
        return text;
    }
    while col < end
        invariant
            start <= col <= end,
            text@ == text_view(views(cells@), start as int, col as int),
        decreases end - col,
    {
        let ghost before = text@;
        let i = col as usize;
        if i < cells.len() {
            let cell = &cells[i];
            if cell.is_wide_continuation() {
                proof {
                    assert(cell_text(views(cells@), i as int) =~= Seq::<char>::empty());
                    assert(text@ =~= before + cell_text(views(cells@), i as int));
                }
            } else if cell.has_contents() {
                text.append(cell.contents());
            } else {
                string_push(&mut text, ' ');
            }
        } else {
            string_push(&mut text, ' ');
        }
        proof {
            assert(text@ =~= before + cell_text(views(cells@), col as int));
        }
        col = col + 1;
    }
    text
}

/// The rightmost cell before `col` that holds text and is not the right half of a wide
/// character.
pub open spec fn combining_target(v: Seq<CellView>, col: int) -> Option<int>
    decreases col,
{
    let index = if col < v.len() { col } else { v.len() as int };
    if index <= 0 {
        None
    } else if !v[index - 1].3 && v[index - 1].0.len() > 0 {
        Some(index - 1)
    } else {
        combining_target(v, index - 1)
    }
}

/// The cell a zero-width character attaches to lies within the row.
pub proof fn lemma_combining_target_in_row(v: Seq<CellView>, col: int)
    ensures
        combining_target(v, col) matches Some(t) ==> 0 <= t < v.len() && t < col,
    decreases col,
{
    let index = if col < v.len() { col } else { v.len() as int };
    if index > 0 && !(!v[index - 1].3 && v[index - 1].0.len() > 0) {
        lemma_combining_target_in_row(v, index - 1);
    }
}

/// The cell a zero-width character at `col` attaches to.
pub fn find_combining_target(cells: &Vec<TerminalCell>, col: usize) -> (r: Option<usize>)
    ensures
        r == (match combining_target(views(cells@), col as int) {
            Some(i) => Some(i as usize),
            None => None::<usize>,
        }),
        r matches Some(i) ==> i < cells@.len(),
{
    let mut index = if col < cells.len() {
        col
    } else {
        cells.len()
    };
    while index > 0
        invariant
            index <= cells@.len(),
            index <= col,
            combining_target(views(cells@), col as int) == combining_target(views(cells@), index as int),
        decreases index,
    {
        index = index - 1;
        let cell = &cells[index];
        if cell.is_wide_continuation() {
            continue;
        }
        if cell.has_contents() {
            return Some(index);
        }
    }
    None
}

/// How many leading columns of the row reach its last non-blank cell.
pub fn row_occupied_columns(cells: &[TerminalCell]) -> (r: usize)
    ensures
        r == crate::grid::row::occupied_len(cells@),
{
    let mut index = cells.len();
    assert(cells@.subrange(0, index as int) =~= cells@);
    while index > 0 && cells[index - 1].is_blank()
        invariant
            index <= cells@.len(),
            crate::grid::row::occupied_len(cells@) == crate::grid::row::occupied_len(
                cells@.subrange(0, index as int),
            ),
        decreases index,
    {
        proof {
            assert(cells@.subrange(0, index as int).drop_last() =~= cells@.subrange(0, index - 1));
        }
        index = index - 1;
    }
    proof {
        if index == cells@.len() {
            assert(cells@.subrange(0, index as int) =~= cells@);
        }
    }
    index
}

/// Where the wrapped line that starts at `start` ends: `width` cells on, moved left so as not to
/// split a wide character, and at least one cell on.
pub open spec fn reflow_break_spec(v: Seq<CellView>, start: int, width: int) -> int {
    if start >= v.len() {
        start
    } else {
        let w = if width > 1 { width } else { 1 };
        let e0 = if start + w < v.len() { start + w } else { v.len() as int };
        let e1 = if e0 < v.len() && v[e0].3 {
            let e = if e0 > 0 { e0 - 1 } else { 0 };
            if e > start && v[e - 1].2 { e - 1 } else { e }
        } else {
            e0
        };
        let e2 = if e1 > start + 1 { e1 } else { start + 1 };
        if e2 < v.len() { e2 } else { v.len() as int }
    }
}

/// Where the wrapped line that starts at `start` ends.
pub fn reflow_break(cells: &Vec<TerminalCell>, start: usize, width: usize) -> (r: usize)
    requires
        start + width + 1 <= usize::MAX,
    ensures
        r == reflow_break_spec(views(cells@), start as int, width as int),
        start < cells@.len() ==> start < r <= cells@.len(),
{
    if start >= cells.len() {
        return start;
    }
    let w = if width > 1 {
        width
    } else {
        1
    };
    let mut end = if start + w < cells.len() {
        start + w
    } else {
        cells.len()
    };
    if end < cells.len() && cells[end].is_wide_continuation() {
        end = end.saturating_sub(1);
        if end > start && cells[end - 1].wide() {
            end = end.saturating_sub(1);
        }
    }
    let end = if end > start + 1 {
        end
    } else {
        start + 1
    };
    if end < cells.len() {
        end
    } else {
        cells.len()
    }
}

/// The lines a row wraps into from `start` on, `width` cells each at most.
pub open spec fn segments_from(v: Seq<CellView>, start: int, width: int) -> Seq<Seq<CellView>>
    decreases v.len() - start,
{
    if start >= v.len() || start < 0 {
        Seq::empty()
    } else {
        let end = reflow_break_spec(v, start, width);
        if end <= start {
            Seq::empty()
        } else {
            seq![v.subrange(start, end)] + segments_from(v, end, width)
        }
    }
}

/// The lines a logical row wraps into at `width` columns; one empty line for an empty row.
pub open spec fn wrap_view(v: Seq<CellView>, width: int) -> Seq<Seq<CellView>> {
    if v.len() == 0 {
        seq![Seq::empty()]
    } else {
        segments_from(v, 0, width)
    }
}

/// Copies of the cells `start..end`.
pub fn copy_range(cells: &Vec<TerminalCell>, start: usize, end: usize) -> (r: Vec<TerminalCell>)
    requires
        start <= end <= cells@.len(),
    ensures
        views(r@) == views(cells@).subrange(start as int, end as int),
{
    let mut out: Vec<TerminalCell> = Vec::with_capacity(end - start);
    let mut i = start;
    while i < end
        invariant
            start <= i <= end,
            end <= cells@.len(),
            views(out@) == views(cells@).subrange(start as int, i as int),
        decreases end - i,
    {
        let ghost prev = out@;
        out.push(cells[i].clone());
        proof {
            assert(views(out@) =~= views(prev).push(cells@[i as int]@));
            assert(views(out@) =~= views(cells@).subrange(start as int, i + 1));
        }
        i = i + 1;
    }
    out
}

/// Splits a logical row into the lines it wraps into at `width` columns.
pub fn wrap_logical_row(cells: &Vec<TerminalCell>, width: usize) -> (r: Vec<Vec<TerminalCell>>)
    requires
        cells@.len() + width + 1 <= usize::MAX,
    ensures
        r@.len() == wrap_view(views(cells@), width as int).len(),
        forall|i: int| 0 <= i < r@.len() ==> views(#[trigger] r@[i]@) == wrap_view(views(cells@), width as int)[i],
{
    let ghost v = views(cells@);
    if cells.len() == 0 {
        let mut wrapped: Vec<Vec<TerminalCell>> = Vec::new();
        wrapped.push(Vec::new());
        proof {
            assert(views(wrapped@[0]@) =~= Seq::<CellView>::empty());
        }
        return wrapped;
    }
    let mut wrapped: Vec<Vec<TerminalCell>> = Vec::new();
    let mut start: usize = 0;
    while start < cells.len()
        invariant
            start <= cells@.len(),
            cells@.len() + width + 1 <= usize::MAX,
            v == views(cells@),
            v.len() > 0,
            wrapped@.len() + segments_from(v, start as int, width as int).len() == segments_from(v, 0, width as int).len(),
            forall|i: int| 0 <= i < wrapped@.len() ==> views(#[trigger] wrapped@[i]@) == segments_from(v, 0, width as int)[i],
            forall|i: int| 0 <= i < segments_from(v, start as int, width as int).len() ==>
                #[trigger] segments_from(v, start as int, width as int)[i] == segments_from(v, 0, width as int)[wrapped@.len() + i],
        decreases cells@.len() - start,
    {
        let end = reflow_break(cells, start, width);
        let segment = copy_range(cells, start, end);
        let ghost rest = segments_from(v, end as int, width as int);
        let ghost here = segments_from(v, start as int, width as int);
        proof {
            assert(here == seq![v.subrange(start as int, end as int)] + rest);
            assert(here[0] == v.subrange(start as int, end as int));
            assert forall|i: int| 0 <= i < rest.len() implies #[trigger] rest[i] == segments_from(v, 0, width as int)[wrapped@.len() + 1 + i] by {
                assert(here[i + 1] == rest[i]);
            }
        }
        wrapped.push(segment);
        start = end;
    }
    proof {
        assert(segments_from(v, start as int, width as int).len() == 0);
    }
    wrapped
}

/// Where column `remaining` of the logical row falls among the wrapped lines from line `i` on.
pub open spec fn map_col_from(segs: Seq<Seq<CellView>>, i: int, remaining: int, width: int) -> (int, int)
    decreases segs.len() - i,
{
    let last_col = if width > 1 { width - 1 } else { 0 };
    if i >= segs.len() || i < 0 {
        let last_row = if segs.len() > 0 { segs.len() - 1 } else { 0 };
        let last_len = if segs.len() > 0 { segs.last().len() as int } else { 0 };
        (last_row, if segs.len() > 0 { if last_len < last_col { last_len } else { last_col } } else { 0 })
    } else {
        let span = segs[i].len() as int;
        let is_last = i + 1 == segs.len();
        if remaining < span || (is_last && remaining <= span) {
            (i, if remaining < last_col { remaining } else { last_col })
        } else {
            map_col_from(segs, i + 1, if remaining >= span { remaining - span } else { 0 }, width)
        }
    }
}

/// The wrapped line and column where column `logical_col` of the logical row ends up.
pub fn map_logical_col_to_rows(cells: &Vec<TerminalCell>, logical_col: usize, width: usize) -> (r: (
    usize,
    usize,
))
    requires
        cells@.len() + width + 1 <= usize::MAX,
    ensures
        (r.0 as int, r.1 as int) == map_col_from(wrap_view(views(cells@), width as int), 0, logical_col as int, width as int),
{
    let segments = wrap_logical_row(cells, width);
    let ghost segs = wrap_view(views(cells@), width as int);
    let mut remaining = logical_col;
    let mut row_index: usize = 0;
    let last_col = width.saturating_sub(1);
    while row_index < segments.len()
        invariant
            segs == wrap_view(views(cells@), width as int),
            segments@.len() == segs.len(),
            forall|i: int| 0 <= i < segments@.len() ==> views(#[trigger] segments@[i]@) == segs[i],
            row_index <= segments@.len(),
            last_col == if width > 1 { width - 1 } else { 0 },
            map_col_from(segs, row_index as int, remaining as int, width as int) == map_col_from(
                segs,
                0,
                logical_col as int,
                width as int,
            ),
        decreases segments@.len() - row_index,
    {
        let is_last = row_index + 1 == segments.len();
        let span = segments[row_index].len();
        proof {
            assert(views(segments@[row_index as int]@).len() == segments@[row_index as int]@.len());
            assert(segs[row_index as int].len() == span);
        }
        if remaining < span || (is_last && remaining <= span) {
            let out = if remaining < last_col {
                remaining
            } else {
                last_col
            };
            assert(map_col_from(segs, row_index as int, remaining as int, width as int) == (row_index as int, out as int));
            return (row_index, out);
        }
        remaining = remaining.saturating_sub(span);
        row_index = row_index + 1;
    }
    let last_row = segments.len().saturating_sub(1);
    let last_col_out = if segments.len() > 0 {
        let l = segments[segments.len() - 1].len();
        proof {
            assert(views(segments@[segments@.len() - 1]@).len() == l);
        }
        if l < last_col {
            l
        } else {
            last_col
        }
    } else {
        0
    };
    (last_row, last_col_out)
}


} // verus!
