use super::cells::{TerminalCell, TerminalColor};
use super::state::TerminalState;
use vstd::prelude::*;

verus! {

/// A colour given by its red, green and blue components.
#[derive(Clone, Copy, Debug, PartialEq, Eq, Structural)]
pub struct Rgb {
    pub r: u8,
    pub g: u8,
    pub b: u8,
}

impl Rgb {
    pub fn new(r: u8, g: u8, b: u8) -> (c: Self)
        ensures
            c == (Rgb { r, g, b }),
    {
        Self { r, g, b }
    }
}

/// The default background.
pub open spec fn spec_default_bg() -> Rgb {
    Rgb { r: 0x12, g: 0x14, b: 0x1b }
}

/// The default foreground.
pub open spec fn spec_default_fg() -> Rgb {
    Rgb { r: 0xe6, g: 0xe9, b: 0xef }
}

/// The default background.
pub fn default_bg() -> (c: Rgb)
    ensures
        c == spec_default_bg(),
{
    Rgb::new(0x12, 0x14, 0x1b)
}

/// The default foreground.
pub fn default_fg() -> (c: Rgb)
    ensures
        c == spec_default_fg(),
{
    Rgb::new(0xe6, 0xe9, 0xef)
}

/// The colour the cursor is drawn with.
pub fn cursor_color() -> (c: Rgb)
    ensures
        c == (Rgb { r: 0xff, g: 0xc8, b: 0x57 }),
{
    Rgb::new(0xff, 0xc8, 0x57)
}

/// The colours a cell is drawn with.
#[derive(Clone, Copy, Debug, PartialEq, Eq, Structural)]
pub struct CellColors {
    pub fg: Rgb,
    pub bg: Rgb,
}

/// The sixteen base colours of the palette.
pub open spec fn ansi16(index: u8) -> Rgb
    recommends
        index < 16,
{
    let v: (u8, u8, u8) = if index == 0 {
        (0x22, 0x22, 0x22)
    } else if index == 1 || index == 9 {
        (0xf3, 0x8b, 0xa8)
    } else if index == 2 || index == 10 {
        (0xa6, 0xe3, 0xa1)
    } else if index == 3 || index == 11 {
        (0xf9, 0xe2, 0xaf)
    } else if index == 4 || index == 12 {
        (0x89, 0xb4, 0xfa)
    } else if index == 5 || index == 13 {
        (0xf5, 0xc2, 0xe7)
    } else if index == 6 || index == 14 {
        (0x94, 0xe2, 0xd5)
    } else if index == 7 {
        (0xba, 0xc2, 0xde)
    } else if index == 8 {
        (0x58, 0x5b, 0x70)
    } else {
        (0xee, 0xef, 0xf7)
    };
    Rgb { r: v.0, g: v.1, b: v.2 }
}

/// One component of the 6x6x6 colour cube: `0`, or `55 + 40 * level`.
pub open spec fn cube_level(level: int) -> int {
    if level == 0 {
        0
    } else {
        level * 40 + 55
    }
}

/// The palette colour of `index`: the sixteen base colours, the 6x6x6 cube from 16 to 231,
/// and 24 greys from 232 to 255.
pub open spec fn palette(index: u8) -> Rgb {
    if index < 16 {
        ansi16(index)
    } else if index < 232 {
        let i = index - 16;
        Rgb {
            r: cube_level(i / 36) as u8,
            g: cube_level((i % 36) / 6) as u8,
            b: cube_level(i % 6) as u8,
        }
    } else {
        let gray = (8 + (index - 232) * 10) as u8;
        Rgb { r: gray, g: gray, b: gray }
    }
}

/// The foreground a colour resolves to; bold brightens the first eight palette colours.
pub open spec fn resolve_fg_spec(color: TerminalColor, bold: bool) -> Rgb {
    match color {
        TerminalColor::Default => spec_default_fg(),
        TerminalColor::Indexed(index) => if bold && index < 8 {
            palette((index + 8) as u8)
        } else {
            palette(index)
        },
        TerminalColor::Rgb(r, g, b) => Rgb { r, g, b },
    }
}

/// The background a colour resolves to.
pub open spec fn resolve_bg_spec(color: TerminalColor) -> Rgb {
    match color {
        TerminalColor::Default => spec_default_bg(),
        TerminalColor::Indexed(index) => palette(index),
        TerminalColor::Rgb(r, g, b) => Rgb { r, g, b },
    }
}

fn scale(component: u8) -> (r: u8)
    requires
        component < 6,
    ensures
        r == cube_level(component as int),
{
    if component == 0 {
        0
    } else {
        component * 40 + 55
    }
}

/// The palette colour of `index`.
pub fn indexed_color(index: u8) -> (c: Rgb)
    ensures
        c == palette(index),
{
    if index < 16 {
        let v: (u8, u8, u8) = match index {
            0 => (0x22, 0x22, 0x22),
            1 | 9 => (0xf3, 0x8b, 0xa8),
            2 | 10 => (0xa6, 0xe3, 0xa1),
            3 | 11 => (0xf9, 0xe2, 0xaf),
            4 | 12 => (0x89, 0xb4, 0xfa),
            5 | 13 => (0xf5, 0xc2, 0xe7),
            6 | 14 => (0x94, 0xe2, 0xd5),
            7 => (0xba, 0xc2, 0xde),
            8 => (0x58, 0x5b, 0x70),
            _ => (0xee, 0xef, 0xf7),
        };
        Rgb::new(v.0, v.1, v.2)
    } else if index < 232 {
        let i = index - 16;
        let r = i / 36;
        let g = (i % 36) / 6;
        let b = i % 6;
        Rgb::new(scale(r), scale(g), scale(b))
    } else {
        let gray = 8 + (index - 232) * 10;
        Rgb::new(gray, gray, gray)
    }
}

fn resolve_fg(color: TerminalColor, bold: bool) -> (c: Rgb)
    ensures
        c == resolve_fg_spec(color, bold),
{
    match color {
        TerminalColor::Default => default_fg(),
        TerminalColor::Indexed(index) => if bold && index < 8 {
            indexed_color(index + 8)
        } else {
            indexed_color(index)
        },
        TerminalColor::Rgb(r, g, b) => Rgb::new(r, g, b),
    }
}

fn resolve_bg(color: TerminalColor) -> (c: Rgb)
    ensures
        c == resolve_bg_spec(color),
{
    match color {
        TerminalColor::Default => default_bg(),
        TerminalColor::Indexed(index) => indexed_color(index),
        TerminalColor::Rgb(r, g, b) => Rgb::new(r, g, b),
    }
}

/// The colours a cell is drawn with: the defaults for no cell, else its resolved foreground
/// and background, exchanged where the cell is inverse.
pub fn cell_colors(cell: Option<&TerminalCell>) -> (c: CellColors)
    ensures
        c == (match cell {
            None => CellColors { fg: spec_default_fg(), bg: spec_default_bg() },
            Some(cell) => {
                let fg = resolve_fg_spec(cell.attrs().fg, cell.attrs().bold);
                let bg = resolve_bg_spec(cell.attrs().bg);
                if cell.attrs().inverse {
                    CellColors { fg: bg, bg: fg }
                } else {
                    CellColors { fg, bg }
                }
            },
        }),
{
    match cell {
        None => CellColors { fg: default_fg(), bg: default_bg() },
        Some(cell) => {
            let mut fg = resolve_fg(cell.fgcolor(), cell.bold());
            let mut bg = resolve_bg(cell.bgcolor());
            if cell.inverse() {
                core::mem::swap(&mut fg, &mut bg);
            }
            CellColors { fg, bg }
        },
    }
}

/// The background a cell with attributes `a` is drawn with: its resolved background, or its
/// resolved foreground where it is inverse.
pub open spec fn attrs_bg(a: super::cells::CellAttributes) -> Rgb {
    if a.inverse { resolve_fg_spec(a.fg, a.bold) } else { resolve_bg_spec(a.bg) }
}

/// The background drawn at column `col` of viewport row `row` of `t`: that of the cell there, or
/// the default where there is none.
pub open spec fn bg_at(t: TerminalState, row: u16, col: int) -> Rgb {
    let b = t.active_spec();
    let i = b.stable_of_visible(row as int) - b.stable_row_offset;
    if 0 <= i < b.len() && 0 <= col < b.lines()[i].0.len() {
        attrs_bg(b.lines()[i].0[col].1)
    } else {
        spec_default_bg()
    }
}

/// Whether `runs` are the runs of columns `0..cols` of viewport row `row` of `t` with a
/// background other than the default: each run (start, end, colour) covers columns
/// `start..end`, all with that colour, and is as long as it can be; the runs come left to right
/// and leave out only the columns with the default background.
pub open spec fn background_runs_of(t: TerminalState, row: u16, cols: int, runs: Seq<(u16, u16, Rgb)>) -> bool {
    &&& forall|k: int| 0 <= k < runs.len() ==> {
        let (s, e, c) = #[trigger] runs[k];
        &&& s < e <= cols
        &&& c != spec_default_bg()
        &&& forall|j: int| s <= j < e ==> bg_at(t, row, j) == c
        &&& (s == 0 || bg_at(t, row, s - 1) != c)
        &&& (e == cols || bg_at(t, row, e as int) != c)
    }
    &&& forall|k: int| 0 <= k < runs.len() - 1 ==> runs[k].1 <= #[trigger] runs[k + 1].0
    &&& forall|j: int| 0 <= j < cols && bg_at(t, row, j) != spec_default_bg() ==> exists|k: int|
        0 <= k < runs.len() && runs[k].0 <= j < #[trigger] runs[k].1
}

/// The background of column `col` of viewport row `row`, as `bg_at` says.
fn bg_of(terminal: &TerminalState, row: u16, col: u16) -> (c: Rgb)
    requires
        terminal.wf(),
    ensures
        c == bg_at(*terminal, row, col as int),
{
    cell_colors(terminal.cell(row, col)).bg
}

/// The runs of columns `0..cols` of viewport row `row` with a background other than the
/// default, as `background_runs_of` says: (start, end, colour).
pub fn background_runs(terminal: &TerminalState, row: u16, cols: u16) -> (r: Vec<(u16, u16, Rgb)>)
    requires
        terminal.wf(),
    ensures
        background_runs_of(*terminal, row, cols as int, r@),
{
    let mut runs: Vec<(u16, u16, Rgb)> = Vec::new();
    let mut start: u16 = 0;
    while start < cols
        invariant
            terminal.wf(),
            start <= cols,
            forall|k: int| 0 <= k < runs@.len() ==> {
                let (s, e, c) = #[trigger] runs@[k];
                &&& s < e <= start
                &&& c != spec_default_bg()
                &&& forall|j: int| s <= j < e ==> bg_at(*terminal, row, j) == c
                &&& (s == 0 || bg_at(*terminal, row, s - 1) != c)
                &&& (e == cols || bg_at(*terminal, row, e as int) != c)
            },
            forall|k: int| 0 <= k < runs@.len() - 1 ==> runs@[k].1 <= #[trigger] runs@[k + 1].0,
            forall|j: int| 0 <= j < start && bg_at(*terminal, row, j) != spec_default_bg() ==> exists|k: int|
                0 <= k < runs@.len() && runs@[k].0 <= j < #[trigger] runs@[k].1,
            start == 0 || start == cols || bg_at(*terminal, row, start - 1) != bg_at(*terminal, row, start as int),
        decreases cols - start,
    {
        let bg = bg_of(terminal, row, start);
        let mut end: u16 = start + 1;
        while end < cols
            invariant
                terminal.wf(),
                start < end <= cols,
                bg == bg_at(*terminal, row, start as int),
                forall|j: int| start <= j < end ==> bg_at(*terminal, row, j) == bg,
            ensures
                start < end <= cols,
                forall|j: int| start <= j < end ==> bg_at(*terminal, row, j) == bg,
                end == cols || bg_at(*terminal, row, end as int) != bg,
            decreases cols - end,
        {
            let next = bg_of(terminal, row, end);
            if next != bg {
                break;
            }
            end = end + 1;
        }
        let ghost before = runs@;
        if bg != default_bg() {
            runs.push((start, end, bg));
            proof {
                assert forall|j: int| 0 <= j < end && bg_at(*terminal, row, j) != spec_default_bg() implies exists|k: int|
                    0 <= k < runs@.len() && runs@[k].0 <= j < #[trigger] runs@[k].1 by {
                    if j >= start {
                        let k = before.len() as int;
                        assert(runs@[k].0 <= j < runs@[k].1);
                    } else {
                        let k = choose|k: int| 0 <= k < before.len() && before[k].0 <= j < #[trigger] before[k].1;
                        assert(runs@[k] == before[k]);
                    }
                }
            }
        } else {
            proof {
                assert forall|j: int| 0 <= j < end && bg_at(*terminal, row, j) != spec_default_bg() implies exists|k: int|
                    0 <= k < runs@.len() && runs@[k].0 <= j < #[trigger] runs@[k].1 by {
                    assert(j < start);
                }
            }
        }
        start = end;
    }
    runs
}

} // verus!
