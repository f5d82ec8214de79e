use vstd::prelude::*;

verus! {

/// How a point that falls outside the grid is brought back into it.
#[derive(Debug, Copy, Clone, PartialEq, Eq)]
pub enum Boundary {
    /// Clamp to the visible screen.
    Cursor,
    /// Clamp to the whole grid, scrollback included.
    Grid,
    /// Wrap around the grid.
    Wrap,
}

/// A line index: `0` is the top visible line, negative lines are scrollback.
#[derive(Debug, Copy, Clone, Eq, PartialEq, Default, Ord, PartialOrd)]
pub struct Line(pub i32);

/// A column index.
#[derive(Debug, Copy, Clone, Eq, PartialEq, Default, Ord, PartialOrd)]
pub struct Column(pub usize);

/// A position in the grid.
#[derive(Debug, Clone, Copy, Default, Eq, PartialEq, PartialOrd, Ord)]
pub struct Point<L = Line, C = Column> {
    pub line: L,
    pub column: C,
}

impl<L, C> Point<L, C> {
    pub fn new(line: L, column: C) -> (r: Self)
        ensures
            r.line == line,
            r.column == column,
    {
        Self { line, column }
    }
}


/// The sizes of a grid: lines in total (scrollback included), visible lines and columns.
pub trait Dimensions {
    spec fn spec_total_lines(&self) -> usize;

    spec fn spec_screen_lines(&self) -> usize;

    spec fn spec_columns(&self) -> usize;

    /// Lines in the grid, scrollback included.
    fn total_lines(&self) -> (r: usize)
        ensures
            r == self.spec_total_lines(),
    ;

    /// Visible lines.
    fn screen_lines(&self) -> (r: usize)
        ensures
            r == self.spec_screen_lines(),
    ;

    /// Columns of each line.
    fn columns(&self) -> (r: usize)
        ensures
            r == self.spec_columns(),
    ;

    /// The rightmost column (`0` when there are none).
    fn last_column(&self) -> (r: Column)
        ensures
            r.0 == sat_sub(self.spec_columns() as int, 1),
    {
        Column(self.columns().saturating_sub(1))
    }

    /// The topmost scrollback line: minus the size of the history.
    fn topmost_line(&self) -> (r: Line)
        requires
            self.spec_total_lines() <= i32::MAX,
        ensures
            r.0 == -history_of(self.spec_total_lines() as int, self.spec_screen_lines() as int),
    {
        Line(-(self.history_size() as i32))
    }

    /// The bottom visible line.
    fn bottommost_line(&self) -> (r: Line)
        requires
            self.spec_screen_lines() <= i32::MAX,
        ensures
            r.0 == self.spec_screen_lines() - 1,
    {
        Line(self.screen_lines() as i32 - 1)
    }

    /// Lines above the visible screen.
    fn history_size(&self) -> (r: usize)
        ensures
            r == history_of(self.spec_total_lines() as int, self.spec_screen_lines() as int),
    {
        self.total_lines().saturating_sub(self.screen_lines())
    }
}

/// `a - b`, or `0` where that is negative.
pub open spec fn sat_sub(a: int, b: int) -> int {
    if a >= b {
        a - b
    } else {
        0
    }
}

/// Scrollback lines of a grid of `total` lines of which `screen` are visible.
pub open spec fn history_of(total: int, screen: int) -> int {
    sat_sub(total, screen)
}

/// The remainder of `a / b` rounded toward zero, as machine integers compute it.
pub open spec fn trunc_rem(a: int, b: int) -> int
    recommends
        b > 0,
{
    if a >= 0 {
        a % b
    } else {
        -((-a) % b)
    }
}

/// A grid size, given by its three numbers.
#[derive(Debug, Clone, Copy, PartialEq, Eq)]
pub struct GridSize {
    pub total_lines: usize,
    pub screen_lines: usize,
    pub columns: usize,
}

impl Dimensions for GridSize {
    open spec fn spec_total_lines(&self) -> usize {
        self.total_lines
    }

    open spec fn spec_screen_lines(&self) -> usize {
        self.screen_lines
    }

    open spec fn spec_columns(&self) -> usize {
        self.columns
    }

    fn total_lines(&self) -> (r: usize) {
        self.total_lines
    }

    fn screen_lines(&self) -> (r: usize) {
        self.screen_lines
    }

    fn columns(&self) -> (r: usize) {
        self.columns
    }
}

/// The sizes whose lines a `Line` can number: at most `i32::MAX` lines in all and on the
/// screen.
pub open spec fn lines_fit<D: Dimensions>(d: &D) -> bool {
    &&& d.spec_total_lines() <= i32::MAX
    &&& d.spec_screen_lines() <= i32::MAX
}

/// Whether wrapping line `l` into the grid, as `Line::grid_clamp` does it, stays inside `i32`:
/// the grid has lines and `l` minus the screen lines is no further below zero than `i32` goes.
pub open spec fn wrap_fits<D: Dimensions>(d: &D, l: int) -> bool {
    &&& d.spec_total_lines() > 0
    &&& l - d.spec_screen_lines() >= i32::MIN
}

/// Where `Line::grid_clamp` brings a line.
pub open spec fn clamp_line<D: Dimensions>(d: &D, l: int, b: Boundary) -> int {
    let top = -history_of(d.spec_total_lines() as int, d.spec_screen_lines() as int);
    let bottom = d.spec_screen_lines() - 1;
    let screen = d.spec_screen_lines() as int;
    let total = d.spec_total_lines() as int;
    match b {
        Boundary::Cursor => if l < 0 { 0 } else if l > bottom { if bottom < 0 { 0 } else { bottom } } else { l },
        Boundary::Grid => if l > bottom { if bottom < top { top } else { bottom } } else if l < top { top } else { l },
        Boundary::Wrap => if l >= screen { top + trunc_rem(l - screen, total) } else { bottom + trunc_rem(l - screen + 1, total) },
    }
}

impl Line {
    /// Brings the line into the grid as `boundary` says.
    pub fn grid_clamp<D: Dimensions>(self, dimensions: &D, boundary: Boundary) -> (r: Self)
        requires
            lines_fit(dimensions),
            boundary == Boundary::Wrap ==> wrap_fits(dimensions, self.0 as int),
        ensures
            r.0 == clamp_line(dimensions, self.0 as int, boundary),
    {
        match boundary {
            Boundary::Cursor => {
                let bottom = dimensions.bottommost_line();
                let m = if bottom.0 < self.0 { bottom.0 } else { self.0 };
                Line(if 0 > m { 0 } else { m })
            },
            Boundary::Grid => {
                let bottom = dimensions.bottommost_line();
                let top = dimensions.topmost_line();
                let m = if bottom.0 < self.0 { bottom.0 } else { self.0 };
                Line(if top.0 > m { top.0 } else { m })
            },
            Boundary::Wrap => {
                let screen_lines = dimensions.screen_lines() as i32;
                let total_lines = dimensions.total_lines() as i32;
                if self.0 >= screen_lines {
                    let topmost_line = dimensions.topmost_line();
                    let extra = (self.0 - screen_lines) % total_lines;
                    Line(topmost_line.0 + extra)
                } else {
                    let bottommost_line = dimensions.bottommost_line();
                    let extra = (self.0 - screen_lines + 1) % total_lines;
                    proof {
                        let a = self.0 - screen_lines + 1;
                        assert(extra == trunc_rem(a, total_lines as int));
                        assert(-a >= 0);
                        assert((-a) % (total_lines as int) < total_lines);
                        assert((-a) % (total_lines as int) >= 0);
                        assert(extra > -(total_lines as int));
                        if a == 0 {
                            vstd::arithmetic::div_mod::lemma_small_mod(0, total_lines as nat);
                        }
                        assert(extra <= 0);
                    }
                    Line(bottommost_line.0 + extra)
                }
            },
        }
    }
}


/// Where `Point::grid_clamp` brings a point, as (line, column).
pub open spec fn clamp_point<D: Dimensions>(d: &D, line: int, column: int, b: Boundary) -> (int, int) {
    let last = sat_sub(d.spec_columns() as int, 1);
    let col = if column < last { column } else { last };
    let top = -history_of(d.spec_total_lines() as int, d.spec_screen_lines() as int);
    let bottom = d.spec_screen_lines() - 1;
    match b {
        Boundary::Cursor => if line < 0 { (0, 0) } else if line > bottom { (bottom, last) } else { (line, col) },
        Boundary::Grid => if line < top { (top, 0) } else if line > bottom { (bottom, last) } else { (line, col) },
        Boundary::Wrap => (clamp_line(d, line, b), col),
    }
}

/// The line and column that `Point::add` computes before clamping.
pub open spec fn add_unclamped(line: int, column: int, cols: int, rhs: int) -> (int, int) {
    (line + (rhs + column) / cols, (column + rhs) % cols)
}

/// The line and column that `Point::sub` computes before clamping.
pub open spec fn sub_unclamped(line: int, column: int, cols: int, rhs: int) -> (int, int) {
    (line - sat_sub(rhs + cols - 1, column) / cols, (cols + column - rhs % cols) % cols)
}

/// The cell index of a point counted row by row from the top visible line.
pub open spec fn linear(line: int, column: int, cols: int) -> int {
    line * cols + column
}

impl Point {
    /// Moves the point `rhs` cells back, row by row, then clamps it as `boundary` says.
    pub fn sub<D>(self, dimensions: &D, boundary: Boundary, rhs: usize) -> (r: Self) where
        D: Dimensions,
        requires
            lines_fit(dimensions),
            dimensions.spec_columns() > 0,
            rhs + dimensions.spec_columns() <= usize::MAX,
            self.column.0 + dimensions.spec_columns() <= usize::MAX,
            sat_sub(rhs + dimensions.spec_columns() - 1, self.column.0 as int) / (dimensions.spec_columns() as int) <= i32::MAX,
            i32::MIN <= sub_unclamped(self.line.0 as int, self.column.0 as int, dimensions.spec_columns() as int, rhs as int).0,
            boundary == Boundary::Wrap ==> wrap_fits(
                dimensions,
                sub_unclamped(self.line.0 as int, self.column.0 as int, dimensions.spec_columns() as int, rhs as int).0,
            ),
        ensures
            (r.line.0 as int, r.column.0 as int) == ({
                let u = sub_unclamped(self.line.0 as int, self.column.0 as int, dimensions.spec_columns() as int, rhs as int);
                clamp_point(dimensions, u.0, u.1, boundary)
            }),
    {
        let cols = dimensions.columns();
        let line_changes = (rhs + cols - 1).saturating_sub(self.column.0) / cols;
        let line = Line(self.line.0 - line_changes as i32);
        let column = Column((cols + self.column.0 - rhs % cols) % cols);
        Point::new(line, column).grid_clamp(dimensions, boundary)
    }

    /// Moves the point `rhs` cells forward, row by row, then clamps it as `boundary` says.
    pub fn add<D>(self, dimensions: &D, boundary: Boundary, rhs: usize) -> (r: Self) where
        D: Dimensions,
        requires
            lines_fit(dimensions),
            dimensions.spec_columns() > 0,
            rhs + self.column.0 <= usize::MAX,
            (rhs + self.column.0) / (dimensions.spec_columns() as int) <= i32::MAX,
            add_unclamped(self.line.0 as int, self.column.0 as int, dimensions.spec_columns() as int, rhs as int).0 <= i32::MAX,
            boundary == Boundary::Wrap ==> wrap_fits(
                dimensions,
                add_unclamped(self.line.0 as int, self.column.0 as int, dimensions.spec_columns() as int, rhs as int).0,
            ),
        ensures
            (r.line.0 as int, r.column.0 as int) == ({
                let u = add_unclamped(self.line.0 as int, self.column.0 as int, dimensions.spec_columns() as int, rhs as int);
                clamp_point(dimensions, u.0, u.1, boundary)
            }),
    {
        let cols = dimensions.columns();
        let line = Line(self.line.0 + ((rhs + self.column.0) / cols) as i32);
        let column = Column((self.column.0 + rhs) % cols);
        Point::new(line, column).grid_clamp(dimensions, boundary)
    }

    /// Brings the point into the grid as `boundary` says; the column never passes the last one.
    pub fn grid_clamp<D>(self, dimensions: &D, boundary: Boundary) -> (r: Self) where
        D: Dimensions,
        requires
            lines_fit(dimensions),
            boundary == Boundary::Wrap ==> wrap_fits(dimensions, self.line.0 as int),
        ensures
            (r.line.0 as int, r.column.0 as int) == clamp_point(
                dimensions,
                self.line.0 as int,
                self.column.0 as int,
                boundary,
            ),
    {
        let last_column = dimensions.last_column();
        let column = if self.column.0 < last_column.0 { self.column } else { last_column };
        let topmost_line = dimensions.topmost_line();
        let bottommost_line = dimensions.bottommost_line();
        match boundary {
            Boundary::Cursor => {
                if self.line.0 < 0 {
                    Point::new(Line(0), Column(0))
                } else if self.line.0 > bottommost_line.0 {
                    Point::new(bottommost_line, last_column)
                } else {
                    Point::new(self.line, column)
                }
            },
            Boundary::Grid => {
                if self.line.0 < topmost_line.0 {
                    Point::new(topmost_line, Column(0))
                } else if self.line.0 > bottommost_line.0 {
                    Point::new(bottommost_line, last_column)
                } else {
                    Point::new(self.line, column)
                }
            },
            Boundary::Wrap => Point::new(self.line.grid_clamp(dimensions, boundary), column),
        }
    }
}


/// Moving a point `rhs` cells forward, before any clamping, lands exactly `rhs` cells further
/// along the rows, on a column inside the row.
pub proof fn lemma_add_moves_forward(line: int, column: int, cols: int, rhs: int)
    requires
        cols > 0,
        0 <= column < cols,
        rhs >= 0,
    ensures
        ({
            let u = add_unclamped(line, column, cols, rhs);
            &&& linear(u.0, u.1, cols) == linear(line, column, cols) + rhs
            &&& 0 <= u.1 < cols
        }),
{
    let q = (rhs + column) / cols;
    let r = (rhs + column) % cols;
    vstd::arithmetic::div_mod::lemma_fundamental_div_mod(rhs + column, cols);
    assert((line + q) * cols + r == line * cols + column + rhs) by (nonlinear_arith)
        requires
            rhs + column == cols * q + r,
    ;
}

/// Moving a point `rhs` cells back, before any clamping, lands exactly `rhs` cells earlier
/// along the rows, on a column inside the row.
pub proof fn lemma_sub_moves_back(line: int, column: int, cols: int, rhs: int)
    requires
        cols > 0,
        0 <= column < cols,
        rhs >= 0,
    ensures
        ({
            let u = sub_unclamped(line, column, cols, rhs);
            &&& linear(u.0, u.1, cols) == linear(line, column, cols) - rhs
            &&& 0 <= u.1 < cols
        }),
{
    let a = rhs / cols;
    let b = rhs % cols;
    vstd::arithmetic::div_mod::lemma_fundamental_div_mod(rhs, cols);
    let lc = sat_sub(rhs + cols - 1, column) / cols;
    let nc = (cols + column - b) % cols;
    assert(rhs + cols - 1 >= column);
    if column >= b {
        vstd::arithmetic::div_mod::lemma_mod_multiples_vanish(1, column - b, cols);
        vstd::arithmetic::div_mod::lemma_small_mod((column - b) as nat, cols as nat);
        assert(nc == column - b);
        assert(rhs + cols - 1 - column == a * cols + (b + cols - 1 - column)) by (nonlinear_arith)
            requires
                rhs == cols * a + b,
        ;
        vstd::arithmetic::div_mod::lemma_fundamental_div_mod_converse(
            rhs + cols - 1 - column,
            cols,
            a,
            b + cols - 1 - column,
        );
        assert(lc == a);
        assert((line - a) * cols + (column - b) == line * cols + column - rhs) by (nonlinear_arith)
            requires
                rhs == cols * a + b,
        ;
    } else {
        vstd::arithmetic::div_mod::lemma_small_mod((cols + column - b) as nat, cols as nat);
        assert(nc == cols + column - b);
        assert(rhs + cols - 1 - column == (a + 1) * cols + (b - 1 - column)) by (nonlinear_arith)
            requires
                rhs == cols * a + b,
        ;
        vstd::arithmetic::div_mod::lemma_fundamental_div_mod_converse(
            rhs + cols - 1 - column,
            cols,
            a + 1,
            b - 1 - column,
        );
        assert(lc == a + 1);
        assert((line - (a + 1)) * cols + (cols + column - b) == line * cols + column - rhs)
            by (nonlinear_arith)
            requires
                rhs == cols * a + b,
        ;
    }
}

/// Moving a point forward and then back by the same number of cells, before any clamping,
/// returns it to where it started.
pub proof fn lemma_add_then_sub_round_trips(line: int, column: int, cols: int, rhs: int)
    requires
        cols > 0,
        0 <= column < cols,
        rhs >= 0,
    ensures
        ({
            let u = add_unclamped(line, column, cols, rhs);
            sub_unclamped(u.0, u.1, cols, rhs) == (line, column)
        }),
{
    lemma_add_moves_forward(line, column, cols, rhs);
    let u = add_unclamped(line, column, cols, rhs);
    lemma_sub_moves_back(u.0, u.1, cols, rhs);
    let v = sub_unclamped(u.0, u.1, cols, rhs);
    lemma_linear_unique(v.0, v.1, line, column, cols);
}

proof fn lemma_linear_unique(l1: int, c1: int, l2: int, c2: int, cols: int)
    requires
        cols > 0,
        0 <= c1 < cols,
        0 <= c2 < cols,
        linear(l1, c1, cols) == linear(l2, c2, cols),
    ensures
        l1 == l2,
        c1 == c2,
{
    if l1 < l2 {
        assert(l1 * cols + cols <= l2 * cols) by (nonlinear_arith)
            requires
                l1 < l2,
                cols > 0,
        ;
    } else if l1 > l2 {
        assert(l2 * cols + cols <= l1 * cols) by (nonlinear_arith)
            requires
                l2 < l1,
                cols > 0,
        ;
    }
}

} // verus!
