//! Text selection on the terminal grid, in stable rows so that it survives scrolling.

use crate::terminal::state::{contents_spec, TerminalState};
use crate::terminal::StableRowIndex;
use vstd::prelude::*;

verus! {

/// A cell on the viewport.
#[derive(Clone, Copy, Debug, PartialEq, Eq, PartialOrd, Ord, Structural)]
pub struct CellPos {
    pub row: u16,
    pub col: u16,
}

/// A cell by stable row, which stays put as the viewport scrolls.
#[derive(Clone, Copy, Debug, PartialEq, Eq, PartialOrd, Ord, Structural)]
pub struct StableCellPos {
    pub row: StableRowIndex,
    pub col: u16,
}

/// A selection from `start` to `end`, both included, `start` first.
#[derive(Clone, Copy, Debug, PartialEq, Eq, Structural)]
pub struct SelectionRange {
    pub start: StableCellPos,
    pub end: StableCellPos,
}

/// Whether `a` comes no later than `b`: an earlier row, or the same row and no later column.
pub open spec fn pos_le(a: StableCellPos, b: StableCellPos) -> bool {
    a.row < b.row || (a.row == b.row && a.col <= b.col)
}

/// The range between `anchor` and `focus`, whichever comes first first.
pub open spec fn ordered(anchor: StableCellPos, focus: StableCellPos) -> SelectionRange {
    if pos_le(anchor, focus) {
        SelectionRange { start: anchor, end: focus }
    } else {
        SelectionRange { start: focus, end: anchor }
    }
}

/// The selection: where it started, where it now ends, and whether the mouse is still making it.
#[derive(Clone, Debug)]
pub struct SelectionState {
    anchor: Option<StableCellPos>,
    focus: Option<StableCellPos>,
    selecting: bool,
}

impl Default for SelectionState {
    /// No selection: no anchor, no focus, the mouse not selecting.
    fn default() -> (r: Self)
        ensures
            r.anchor_spec() is None,
            r.focus_spec() is None,
            !r.selecting_spec(),
    {
        SelectionState { anchor: None, focus: None, selecting: false }
    }
}

impl SelectionState {
    /// Where the selection started.
    pub closed spec fn anchor_spec(&self) -> Option<StableCellPos> {
        self.anchor
    }

    /// Where the selection now ends.
    pub closed spec fn focus_spec(&self) -> Option<StableCellPos> {
        self.focus
    }

    /// Whether a selection is being made.
    pub closed spec fn selecting_spec(&self) -> bool {
        self.selecting
    }

    /// The selected range, if both ends are set.
    pub open spec fn range_spec(&self) -> Option<SelectionRange> {
        match (self.anchor_spec(), self.focus_spec()) {
            (Some(a), Some(f)) => Some(ordered(a, f)),
            _ => None,
        }
    }

    /// Starts a selection at `pos`.
    pub fn begin(&mut self, pos: StableCellPos)
        ensures
            final(self).anchor_spec() == Some(pos),
            final(self).focus_spec() == Some(pos),
            final(self).selecting_spec(),
    {
        self.anchor = Some(pos);
        self.focus = Some(pos);
        self.selecting = true;
    }

    /// Moves the end of a selection being made to `pos`; whether it moved.
    pub fn update(&mut self, pos: StableCellPos) -> (r: bool)
        ensures
            r == (old(self).selecting_spec() && old(self).focus_spec() != Some(pos)),
            final(self).anchor_spec() == old(self).anchor_spec(),
            final(self).selecting_spec() == old(self).selecting_spec(),
            final(self).focus_spec() == if r { Some(pos) } else { old(self).focus_spec() },
    {
        let same = match self.focus {
            Some(f) => f.row == pos.row && f.col == pos.col,
            None => false,
        };
        if self.selecting && !same {
            self.focus = Some(pos);
            return true;
        }
        false
    }

    /// Ends the selection being made, dropping it where it is empty; whether one was being made.
    pub fn finish(&mut self) -> (r: bool)
        ensures
            r == old(self).selecting_spec(),
            !final(self).selecting_spec(),
            old(self).anchor_spec() == old(self).focus_spec() ==> final(self).anchor_spec() is None
                && final(self).focus_spec() is None,
            old(self).anchor_spec() != old(self).focus_spec() ==> final(self).anchor_spec() == old(self).anchor_spec()
                && final(self).focus_spec() == old(self).focus_spec(),
    {
        let changed = self.selecting;
        self.selecting = false;
        let same = match (self.anchor, self.focus) {
            (Some(a), Some(f)) => a.row == f.row && a.col == f.col,
            (None, None) => true,
            _ => false,
        };
        if same {
            self.clear();
        }
        changed
    }

    /// Drops the selection.
    pub fn clear(&mut self)
        ensures
            final(self).anchor_spec() is None,
            final(self).focus_spec() is None,
            !final(self).selecting_spec(),
    {
        self.anchor = None;
        self.focus = None;
        self.selecting = false;
    }

    /// Selects from `anchor` to `focus`, finished; whether anything changed.
    pub fn set_range(&mut self, anchor: StableCellPos, focus: StableCellPos) -> (r: bool)
        ensures
            r == (old(self).anchor_spec() != Some(anchor) || old(self).focus_spec() != Some(focus)
                || old(self).selecting_spec()),
            final(self).anchor_spec() == Some(anchor),
            final(self).focus_spec() == Some(focus),
            !final(self).selecting_spec(),
    {
        let same_anchor = match self.anchor {
            Some(a) => a.row == anchor.row && a.col == anchor.col,
            None => false,
        };
        let same_focus = match self.focus {
            Some(f) => f.row == focus.row && f.col == focus.col,
            None => false,
        };
        let changed = !same_anchor || !same_focus || self.selecting;
        self.anchor = Some(anchor);
        self.focus = Some(focus);
        self.selecting = false;
        changed
    }

    /// The selected range, its earlier end first, if both ends are set.
    pub fn range(&self) -> (r: Option<SelectionRange>)
        ensures
            r == self.range_spec(),
            r matches Some(range) ==> pos_le(range.start, range.end),
    {
        let anchor = match self.anchor {
            Some(a) => a,
            None => return None,
        };
        let focus = match self.focus {
            Some(f) => f,
            None => return None,
        };
        let forward = anchor.row < focus.row || (anchor.row == focus.row && anchor.col <= focus.col);
        if forward {
            Some(SelectionRange { start: anchor, end: focus })
        } else {
            Some(SelectionRange { start: focus, end: anchor })
        }
    }

    /// Whether anything is selected.
    pub fn is_selected(&self) -> (r: bool)
        ensures
            r == self.range_spec() is Some,
    {
        self.range().is_some()
    }

    /// The selected text of `terminal`, the end cell included.
    pub fn selection_text(&self, terminal: &TerminalState) -> (r: Option<String>)
        requires
            terminal.wf(),
        ensures
            match self.range_spec() {
                Some(range) => {
                    let cols = terminal.cols_spec();
                    let end_col = if range.end.col + 1 < cols { (range.end.col + 1) as u16 } else { cols };
                    r matches Some(text) && text@ == contents_spec(
                        terminal.active_spec(),
                        range.start.row as int,
                        range.start.col,
                        range.end.row as int,
                        end_col,
                        cols,
                    )
                },
                None => r is None,
            },
    {
        let range = match self.range() {
            Some(range) => range,
            None => return None,
        };
        let (_, cols) = terminal.size();
        let next = range.end.col.saturating_add(1);
        let end_col = if next < cols {
            next
        } else {
            cols
        };
        Some(terminal.contents_between_stable(range.start.row, range.start.col, range.end.row, end_col))
    }

    /// The columns `start..end` of viewport row `row` that the selection covers, if any.
    pub fn cols_for_visible_row(&self, terminal: &TerminalState, row: u16) -> (r: Option<(u16, u16)>)
        requires
            terminal.wf(),
        ensures
            match self.range_spec() {
                Some(range) => {
                    let s = terminal.active_spec().stable_of_visible(row as int);
                    let cols = terminal.cols_spec();
                    let start_col = if s == range.start.row { range.start.col } else { 0 };
                    let end_col = if s == range.end.row {
                        if range.end.col + 1 < cols { (range.end.col + 1) as u16 } else { cols }
                    } else {
                        cols
                    };
                    r == if s < range.start.row || s > range.end.row || end_col <= start_col {
                        None::<(u16, u16)>
                    } else {
                        Some((start_col, end_col))
                    }
                },
                None => r is None,
            },
    {
        let range = match self.range() {
            Some(range) => range,
            None => return None,
        };
        let stable_row = terminal.visible_row_to_stable_row(row);
        if stable_row < range.start.row || stable_row > range.end.row {
            return None;
        }
        let (_, cols) = terminal.size();
        let start_col = if stable_row == range.start.row {
            range.start.col
        } else {
            0
        };
        let end_col = if stable_row == range.end.row {
            let next = range.end.col.saturating_add(1);
            if next < cols {
                next
            } else {
                cols
            }
        } else {
            cols
        };
        if end_col > start_col {
            Some((start_col, end_col))
        } else {
            None
        }
    }
}

} // verus!
