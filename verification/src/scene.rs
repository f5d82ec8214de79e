//! The plain values the renderer draws from: colours, the cursor, font descriptions, and the
//! underline and strikeout lines gathered from runs of cells.

use vstd::prelude::*;

verus! {

/// A colour as red, green and blue bytes.
#[derive(Clone, Copy, Debug, Default, PartialEq, Eq, Hash, Structural)]
pub struct Rgb {
    pub r: u8,
    pub g: u8,
    pub b: u8,
}

impl Rgb {
    /// The colour with the given components.
    pub fn new(r: u8, g: u8, b: u8) -> (c: Self)
        ensures
            c == (Rgb { r, g, b }),
    {
        Rgb { r, g, b }
    }
}

/// How the cursor is drawn.
#[derive(Clone, Copy, Debug, PartialEq, Eq, Structural)]
pub enum CursorShape {
    Hidden,
    Block,
    HollowBlock,
    Beam,
    Underline,
}

/// The cursor as the scene draws it: its cell, its width in cells (at least one), its shape,
/// its colour and the colour of the text under it.
#[derive(Clone, Copy, Debug, PartialEq, Eq, Structural)]
pub struct SceneCursor {
    pub row: usize,
    pub column: usize,
    pub width: u32,
    pub shape: CursorShape,
    pub color: Rgb,
    pub text_color: Rgb,
}

impl SceneCursor {
    /// A cursor one cell wide at `row` and `column`, over black text.
    pub fn new(row: usize, column: usize, shape: CursorShape, color: Rgb) -> (c: Self)
        ensures
            c == (SceneCursor { row, column, width: 1, shape, color, text_color: Rgb { r: 0, g: 0, b: 0 } }),
    {
        SceneCursor { row, column, width: 1, shape, color, text_color: Rgb::new(0, 0, 0) }
    }
}

/// A size in physical pixels.
#[derive(Clone, Copy, Debug, PartialEq, Eq, Structural)]
pub struct PixelSize {
    pub width: u32,
    pub height: u32,
}

impl PixelSize {
    /// The size `width` by `height`.
    pub fn new(width: u32, height: u32) -> (s: Self)
        ensures
            s == (PixelSize { width, height }),
    {
        PixelSize { width, height }
    }
}

/// The size the renderer draws at: each side of `size` cut down to `max_dimension`, the longest
/// texture side the GPU accepts.
pub fn clamp_render_size(size: PixelSize, max_dimension: u32) -> (r: PixelSize)
    ensures
        r.width == if size.width <= max_dimension { size.width } else { max_dimension },
        r.height == if size.height <= max_dimension { size.height } else { max_dimension },
{
    let width = if size.width <= max_dimension { size.width } else { max_dimension };
    let height = if size.height <= max_dimension { size.height } else { max_dimension };
    PixelSize { width, height }
}

/// A font by family and style.
#[derive(Clone, Debug, PartialEq, Eq)]
pub struct FontDescription {
    pub family: String,
    pub style: Option<String>,
}

impl FontDescription {
    /// The same family with the style `style`.
    pub fn with_style(self, style: Option<String>) -> (r: Self)
        ensures
            r.family@ == self.family@,
            match (r.style, style) {
                (Some(a), Some(b)) => a@ == b@,
                (None, None) => true,
                _ => false,
            },
    {
        FontDescription { family: self.family, style }
    }
}

/// How far glyphs are moved, in pixels.
#[derive(Clone, Copy, Debug, Default, PartialEq, Eq, Structural)]
pub struct FontOffset {
    pub x: i8,
    pub y: i8,
}

/// Bold text.
pub const BOLD: u16 = 1;
/// Italic text.
pub const ITALIC: u16 = 2;
/// Hidden text.
pub const HIDDEN: u16 = 4;
/// Underlined text.
pub const UNDERLINE: u16 = 8;
/// Doubly underlined text.
pub const DOUBLE_UNDERLINE: u16 = 16;
/// Struck-out text.
pub const STRIKEOUT: u16 = 32;
/// Text underlined with a curl.
pub const UNDERCURL: u16 = 64;
/// Text underlined with dots.
pub const DOTTED_UNDERLINE: u16 = 128;
/// Text underlined with dashes.
pub const DASHED_UNDERLINE: u16 = 256;

/// How a line's rectangles are drawn.
#[derive(Clone, Copy, Debug, PartialEq, Eq, Structural)]
pub enum RectKind {
    Normal,
    Undercurl,
    DottedUnderline,
    DashedUnderline,
}

/// A run of underlined or struck-out cells from (`start_row`, `start_column`) to
/// (`end_row`, `end_column`), both included, in one colour.
#[derive(Clone, Copy, Debug, PartialEq, Eq, Structural)]
pub struct RenderLine {
    pub start_row: usize,
    pub start_column: usize,
    pub end_row: usize,
    pub end_column: usize,
    pub color: Rgb,
}

/// The pieces, one per row, that a line from (`start_row`, `start_column`) to (`end_row`,
/// `end_column`) is drawn in: each row before the last runs from its start column to
/// `last_column`, the next rows starting at column zero, and the last row ends at `end_column`.
pub open spec fn row_spans(start_row: int, start_column: int, end_row: int, end_column: int, last_column: int) -> Seq<(usize, usize, usize)>
    decreases end_row - start_row,
{
    if start_row >= end_row {
        seq![(start_row as usize, start_column as usize, end_column as usize)]
    } else {
        seq![(start_row as usize, start_column as usize, last_column as usize)]
            + row_spans(start_row + 1, 0, end_row, end_column, last_column)
    }
}

impl RenderLine {
    /// The pieces, one per row, that this line is drawn in on a grid whose last column is
    /// `last_column`: (row, first column, last column), as `row_spans` says.
    pub fn row_spans(&self, last_column: usize) -> (r: Vec<(usize, usize, usize)>)
        ensures
            r@ == row_spans(self.start_row as int, self.start_column as int, self.end_row as int, self.end_column as int, last_column as int),
    {
        let mut spans: Vec<(usize, usize, usize)> = Vec::new();
        let mut start_row = self.start_row;
        let mut start_column = self.start_column;
        while start_row < self.end_row
            invariant
                self.start_row <= start_row,
                start_row == self.start_row || start_column == 0,
                spans@ + row_spans(start_row as int, start_column as int, self.end_row as int, self.end_column as int, last_column as int)
                    == row_spans(self.start_row as int, self.start_column as int, self.end_row as int, self.end_column as int, last_column as int),
            decreases self.end_row - start_row,
        {
            let ghost before = spans@;
            spans.push((start_row, start_column, last_column));
            proof {
                let rest = row_spans(start_row as int + 1, 0, self.end_row as int, self.end_column as int, last_column as int);
                assert(before.push((start_row, start_column, last_column)) + rest
                    =~= before + (seq![(start_row, start_column, last_column)] + rest));
            }
            start_row = start_row + 1;
            start_column = 0;
        }
        let ghost before = spans@;
        spans.push((start_row, start_column, self.end_column));
        proof {
            assert(before.push((start_row, start_column, self.end_column)) =~= before + seq![(start_row, start_column, self.end_column)]);
        }
        spans
    }
}

/// What a cell contributes to lines: where it is, how many columns it covers (at least one),
/// its colours and its style flags.
#[derive(Clone, Copy, Debug, PartialEq, Eq, Structural)]
pub struct LineCell {
    pub row: usize,
    pub column: usize,
    pub width: u32,
    pub fg: Rgb,
    pub underline: Rgb,
    pub flags: u16,
}

/// The line flags in the order their lines are kept.
pub open spec fn line_flag(i: int) -> u16 {
    if i == 0 {
        UNDERLINE
    } else if i == 1 {
        DOUBLE_UNDERLINE
    } else if i == 2 {
        STRIKEOUT
    } else if i == 3 {
        UNDERCURL
    } else if i == 4 {
        DOTTED_UNDERLINE
    } else {
        DASHED_UNDERLINE
    }
}

/// The lines of one kind after `cell` is added: the last line grows where the cell continues
/// it in the same colour on the same row, else a line of the cell alone is added; nothing
/// changes for a cell without the flag.
pub open spec fn lines_after(lines: Seq<RenderLine>, cell: LineCell, flag: u16) -> Seq<RenderLine> {
    if cell.flags & flag == 0 {
        lines
    } else {
        let color = if flag == STRIKEOUT { cell.fg } else { cell.underline };
        let end_column = (cell.column + cell.width - 1) as usize;
        if lines.len() > 0 && lines.last().color == color && cell.row == lines.last().end_row && cell.column
            == lines.last().end_column + 1 {
            lines.update(lines.len() - 1, RenderLine { end_column, ..lines.last() })
        } else {
            lines.push(RenderLine { start_row: cell.row, start_column: cell.column, end_row: cell.row, end_column, color })
        }
    }
}

/// The lines gathered from the cells, one list per kind of line.
pub struct RenderLines {
    underline: Vec<RenderLine>,
    double_underline: Vec<RenderLine>,
    strikeout: Vec<RenderLine>,
    undercurl: Vec<RenderLine>,
    dotted_underline: Vec<RenderLine>,
    dashed_underline: Vec<RenderLine>,
}

impl RenderLines {
    /// The lines of the kind at position `i` of `line_flag`.
    pub closed spec fn kind(&self, i: int) -> Seq<RenderLine> {
        if i == 0 {
            self.underline@
        } else if i == 1 {
            self.double_underline@
        } else if i == 2 {
            self.strikeout@
        } else if i == 3 {
            self.undercurl@
        } else if i == 4 {
            self.dotted_underline@
        } else {
            self.dashed_underline@
        }
    }

    /// No lines.
    pub fn new() -> (r: Self)
        ensures
            forall|i: int| 0 <= i < 6 ==> #[trigger] r.kind(i) == Seq::<RenderLine>::empty(),
    {
        let r = RenderLines {
            underline: Vec::new(),
            double_underline: Vec::new(),
            strikeout: Vec::new(),
            undercurl: Vec::new(),
            dotted_underline: Vec::new(),
            dashed_underline: Vec::new(),
        };
        proof {
            assert forall|i: int| 0 <= i < 6 implies #[trigger] r.kind(i) == Seq::<RenderLine>::empty() by {
                assert(r.underline@ =~= Seq::<RenderLine>::empty());
                assert(r.double_underline@ =~= Seq::<RenderLine>::empty());
                assert(r.strikeout@ =~= Seq::<RenderLine>::empty());
                assert(r.undercurl@ =~= Seq::<RenderLine>::empty());
                assert(r.dotted_underline@ =~= Seq::<RenderLine>::empty());
                assert(r.dashed_underline@ =~= Seq::<RenderLine>::empty());
            }
        }
        r
    }

    /// The lines of the kind at position `index` of `line_flag`.
    pub fn lines(&self, index: usize) -> (r: &Vec<RenderLine>)
        requires
            index < 6,
        ensures
            r@ == self.kind(index as int),
    {
        if index == 0 {
            &self.underline
        } else if index == 1 {
            &self.double_underline
        } else if index == 2 {
            &self.strikeout
        } else if index == 3 {
            &self.undercurl
        } else if index == 4 {
            &self.dotted_underline
        } else {
            &self.dashed_underline
        }
    }

    /// Adds `cell` to the lines of every kind it has, as `lines_after` says.
    pub fn update(&mut self, cell: &LineCell)
        requires
            1 <= cell.width,
            cell.column + cell.width <= usize::MAX,
        ensures
            forall|i: int| 0 <= i < 6 ==> #[trigger] final(self).kind(i) == lines_after(old(self).kind(i), *cell, line_flag(i)),
    {
        update_lines(&mut self.underline, cell, UNDERLINE);
        update_lines(&mut self.double_underline, cell, DOUBLE_UNDERLINE);
        update_lines(&mut self.strikeout, cell, STRIKEOUT);
        update_lines(&mut self.undercurl, cell, UNDERCURL);
        update_lines(&mut self.dotted_underline, cell, DOTTED_UNDERLINE);
        update_lines(&mut self.dashed_underline, cell, DASHED_UNDERLINE);
    }
}

/// Adds `cell` to the lines of the kind `flag`, as `lines_after` says.
fn update_lines(lines: &mut Vec<RenderLine>, cell: &LineCell, flag: u16)
    requires
        1 <= cell.width,
        cell.column + cell.width <= usize::MAX,
    ensures
        final(lines)@ == lines_after(old(lines)@, *cell, flag),
{
    if cell.flags & flag == 0 {
        return;
    }
    let color = if flag == STRIKEOUT {
        cell.fg
    } else {
        cell.underline
    };
    let end_column = cell.column + cell.width as usize - 1;
    let n = lines.len();
    if n > 0 {
        let last = lines[n - 1];
        if last.color == color && cell.row == last.end_row && last.end_column < usize::MAX && cell.column == last.end_column + 1 {
            lines.set(n - 1, RenderLine { end_column, ..last });
            return;
        }
    }
    lines.push(RenderLine { start_row: cell.row, start_column: cell.column, end_row: cell.row, end_column, color });
}

} // verus!
