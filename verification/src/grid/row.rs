use super::index::Column;
use vstd::prelude::*;

verus! {

/// A cell that can be told apart from an empty one and reset from a template.
pub trait GridCell: Sized {
    spec fn spec_is_empty(&self) -> bool;

    /// Whether the two cells hold the same thing.
    spec fn spec_same(&self, other: &Self) -> bool;

    /// Whether the cell holds nothing.
    fn is_empty(&self) -> (r: bool)
        ensures
            r == self.spec_is_empty(),
    ;

    /// Makes the cell hold what `template` holds.
    fn reset(&mut self, template: &Self)
        ensures
            final(self).spec_same(template),
    ;
}

impl GridCell for usize {
    open spec fn spec_is_empty(&self) -> bool {
        *self == 0
    }

    open spec fn spec_same(&self, other: &Self) -> bool {
        *self == *other
    }

    fn is_empty(&self) -> (r: bool) {
        *self == 0
    }

    fn reset(&mut self, template: &Self) {
        *self = *template;
    }
}

/// The length of `s` without its trailing empty cells.
pub open spec fn occupied_len<T: GridCell>(s: Seq<T>) -> nat
    decreases s.len(),
{
    if s.len() == 0 {
        0
    } else if !s.last().spec_is_empty() {
        s.len()
    } else {
        occupied_len(s.drop_last())
    }
}

/// `occupied_len` is the length of the longest prefix that ends in a non-empty cell.
pub proof fn lemma_occupied_len<T: GridCell>(s: Seq<T>)
    ensures
        occupied_len(s) <= s.len(),
        forall|i: int| occupied_len(s) <= i < s.len() ==> (#[trigger] s[i]).spec_is_empty(),
        occupied_len(s) > 0 ==> !s[occupied_len(s) - 1].spec_is_empty(),
    decreases s.len(),
{
    if s.len() > 0 && s.last().spec_is_empty() {
        let d = s.drop_last();
        lemma_occupied_len(d);
        assert forall|i: int| occupied_len(s) <= i < s.len() implies (#[trigger] s[i]).spec_is_empty() by {
            if i < s.len() - 1 {
                assert(d[i] == s[i]);
            }
        }
        if occupied_len(s) > 0 {
            assert(d[occupied_len(s) - 1] == s[occupied_len(s) - 1]);
        }
    }
}

/// A row of cells, with `occ` counting the columns that may have been written.
#[derive(Default, Clone, Debug, PartialEq, Eq)]
pub struct GridRow<T> {
    inner: Vec<T>,
    pub occ: usize,
}

impl<T> GridRow<T> {
    /// The cells of the row, left to right.
    pub closed spec fn cells(&self) -> Seq<T> {
        self.inner@
    }

    /// The occupied count.
    pub closed spec fn occ_count(&self) -> usize {
        self.occ
    }
}

/// Whether `x` is what `T::default` gives.
pub open spec fn is_default<T: Default>(x: T) -> bool {
    call_ensures(T::default, (), x)
}

impl<T: Default> GridRow<T> {
    /// A row of `columns` default cells, none of them occupied.
    pub fn new(columns: usize) -> (r: Self)
        requires
            columns >= 1,
        ensures
            r.cells().len() == columns,
            r.occ_count() == 0,
            forall|i: int| 0 <= i < columns ==> is_default(#[trigger] r.cells()[i]),
    {
        let mut inner: Vec<T> = Vec::with_capacity(columns);
        let mut i: usize = 0;
        while i < columns
            invariant
                i <= columns,
                inner@.len() == i,
                forall|k: int| 0 <= k < i ==> is_default(#[trigger] inner@[k]),
            decreases columns - i,
        {
            inner.push(T::default());
            i = i + 1;
        }
        Self { inner, occ: 0 }
    }

    /// Adds default cells at the end until the row has `columns` cells; a longer row is kept.
    pub fn grow(&mut self, columns: usize)
        ensures
            final(self).cells().len() == if old(self).cells().len() < columns {
                columns as nat
            } else {
                old(self).cells().len()
            },
            final(self).cells().subrange(0, old(self).cells().len() as int) == old(self).cells(),
            forall|i: int| old(self).cells().len() <= i < final(self).cells().len() ==> is_default(#[trigger] final(self).cells()[i]),
            final(self).occ_count() == old(self).occ_count(),
    {
        let ghost before = self.inner@;
        while self.inner.len() < columns
            invariant
                self.occ == old(self).occ,
                self.inner@.len() <= if before.len() < columns {
                    columns as nat
                } else {
                    before.len()
                },
                self.inner@.len() >= before.len(),
                self.inner@.subrange(0, before.len() as int) == before,
                forall|i: int| before.len() <= i < self.inner@.len() ==> is_default(#[trigger] self.inner@[i]),
            decreases columns - self.inner@.len(),
        {
            self.inner.push(T::default());
        }
    }
}

impl<T: GridCell> GridRow<T> {
    /// Cuts the row down to `columns` cells and hands back the cut-off cells without their
    /// trailing empty ones; `None` where nothing was cut or all of it was empty.
    pub fn shrink(&mut self, columns: usize) -> (r: Option<Vec<T>>)
        ensures
            old(self).cells().len() <= columns ==> r is None && *final(self) == *old(self),
            old(self).cells().len() > columns ==> {
                let tail = old(self).cells().subrange(columns as int, old(self).cells().len() as int);
                &&& final(self).cells() == old(self).cells().subrange(0, columns as int)
                &&& final(self).occ_count() == if old(self).occ_count() < columns {
                    old(self).occ_count()
                } else {
                    columns
                }
                &&& occupied_len(tail) == 0 ==> r is None
                &&& occupied_len(tail) > 0 ==> (r matches Some(v) && v@ == tail.subrange(
                    0,
                    occupied_len(tail) as int,
                ))
            },
    {
        if self.inner.len() <= columns {
            return None;
        }
        let mut new_row = self.inner.split_off(columns);
        let ghost tail = new_row@;
        let mut index = new_row.len();
        assert(tail.subrange(0, index as int) == tail);
        while index > 0 && new_row[index - 1].is_empty()
            invariant
                new_row@ == tail,
                index <= tail.len(),
                occupied_len(tail) == occupied_len(tail.subrange(0, index as int)),
            decreases index,
        {
            assert(tail.subrange(0, index as int).drop_last() == tail.subrange(0, index - 1));
            index = index - 1;
        }
        proof {
            let p = tail.subrange(0, index as int);
            if index > 0 {
                assert(!p.last().spec_is_empty());
            }
        }
        new_row.truncate(index);
        self.occ = if self.occ < columns {
            self.occ
        } else {
            columns
        };
        if new_row.len() == 0 {
            None
        } else {
            Some(new_row)
        }
    }

    /// Resets the first `occ` cells to `template` and marks the row unoccupied.
    pub fn reset(&mut self, template: &T)
        requires
            old(self).occ_count() <= old(self).cells().len(),
        ensures
            final(self).occ_count() == 0,
            final(self).cells().len() == old(self).cells().len(),
            forall|i: int|
                0 <= i < old(self).occ_count() ==> (#[trigger] final(self).cells()[i]).spec_same(template),
            forall|i: int|
                old(self).occ_count() <= i < final(self).cells().len() ==> #[trigger] final(self).cells()[i]
                    == old(self).cells()[i],
    {
        let mut i: usize = 0;
        while i < self.occ
            invariant
                i <= self.occ,
                self.occ == old(self).occ_count(),
                self.occ <= self.inner@.len(),
                self.inner@.len() == old(self).cells().len(),
                forall|j: int| 0 <= j < i ==> (#[trigger] self.inner@[j]).spec_same(template),
                forall|j: int| i <= j < self.inner@.len() ==> #[trigger] self.inner@[j] == old(self).cells()[j],
            decreases self.occ - i,
        {
            let mut cell = self.inner.remove(i);
            cell.reset(template);
            self.inner.insert(i, cell);
            i = i + 1;
        }
        self.occ = 0;
    }

    /// Whether every cell is empty.
    pub fn is_clear(&self) -> (r: bool)
        ensures
            r == forall|i: int| 0 <= i < self.cells().len() ==> (#[trigger] self.cells()[i]).spec_is_empty(),
    {
        let mut i: usize = 0;
        while i < self.inner.len()
            invariant
                i <= self.inner@.len(),
                forall|j: int| 0 <= j < i ==> (#[trigger] self.inner@[j]).spec_is_empty(),
            decreases self.inner@.len() - i,
        {
            if !self.inner[i].is_empty() {
                assert(!self.cells()[i as int].spec_is_empty());
                return false;
            }
            i = i + 1;
        }
        true
    }
}

impl<T> GridRow<T> {
    /// A row holding `vec`, with `occ` as given.
    pub fn from_vec(vec: Vec<T>, occ: usize) -> (r: Self)
        ensures
            r.cells() == vec@,
            r.occ_count() == occ,
    {
        Self { inner: vec, occ }
    }

    /// The number of cells.
    pub fn len(&self) -> (r: usize)
        ensures
            r == self.cells().len(),
    {
        self.inner.len()
    }

    /// The cells as a slice.
    pub fn as_slice(&self) -> (r: &[T])
        ensures
            r@ == self.cells(),
    {
        self.inner.as_slice()
    }

    /// A copy of the cells, each made by `clone`.
    pub fn to_vec(&self) -> (r: Vec<T>) where T: Clone
        ensures
            r@.len() == self.cells().len(),
            forall|i: int| 0 <= i < r@.len() ==> cloned::<T>(self.cells()[i], #[trigger] r@[i]),
    {
        self.inner.clone()
    }

    /// The last cell, if any.
    pub fn last(&self) -> (r: Option<&T>)
        ensures
            self.cells().len() == 0 ==> r is None,
            self.cells().len() > 0 ==> r == Some(&self.cells().last()),
    {
        if self.inner.len() == 0 {
            None
        } else {
            Some(&self.inner[self.inner.len() - 1])
        }
    }

    /// The last cell, if any, to change; the whole row then counts as occupied.
    pub fn last_mut(&mut self) -> (r: Option<&mut T>)
        ensures
            final(self).occ_count() == old(self).cells().len(),
            old(self).cells().len() == 0 ==> r is None && final(self).cells() == old(self).cells(),
            old(self).cells().len() > 0 ==> {
                &&& r is Some
                &&& *r.unwrap() == old(self).cells().last()
                &&& final(self).cells() == old(self).cells().update(old(self).cells().len() - 1, *final(r.unwrap()))
            },
    {
        self.occ = self.inner.len();
        let n = self.inner.len();
        if n == 0 {
            None
        } else {
            Some(&mut self.inner[n - 1])
        }
    }

    /// The cell at `column`.
    pub fn cell(&self, column: Column) -> (r: &T)
        requires
            column.0 < self.cells().len(),
        ensures
            *r == self.cells()[column.0 as int],
    {
        &self.inner[column.0]
    }

    /// Replaces the cell at `column` and marks the row occupied up to and including it.
    pub fn set(&mut self, column: Column, value: T)
        requires
            column.0 < old(self).cells().len(),
        ensures
            final(self).cells() == old(self).cells().update(column.0 as int, value),
            final(self).occ_count() == if old(self).occ_count() > column.0 + 1 {
                old(self).occ_count() as int
            } else {
                column.0 + 1
            },
    {
        let n = self.inner.len();
        assert(column.0 < n);
        if self.occ < column.0 + 1 {
            self.occ = column.0 + 1;
        }
        self.inner.set(column.0, value);
    }

    /// Appends `vec` to the row, leaving `vec` empty; the occupied count grows by its length.
    pub fn append(&mut self, vec: &mut Vec<T>)
        requires
            old(self).occ_count() + old(vec)@.len() <= usize::MAX,
        ensures
            final(self).cells() == old(self).cells() + old(vec)@,
            final(self).occ_count() == old(self).occ_count() + old(vec)@.len(),
            final(vec)@.len() == 0,
    {
        self.occ = self.occ + vec.len();
        self.inner.append(vec);
    }

    /// Puts `vec` in front of the row; the occupied count grows by its length.
    pub fn append_front(&mut self, vec: Vec<T>)
        requires
            old(self).occ_count() + vec@.len() <= usize::MAX,
        ensures
            final(self).cells() == vec@ + old(self).cells(),
            final(self).occ_count() == old(self).occ_count() + vec@.len(),
    {
        let mut vec = vec;
        self.occ = self.occ + vec.len();
        vec.append(&mut self.inner);
        self.inner = vec;
    }

    /// Removes and returns the first `at` cells; the occupied count drops by `at`, down to `0`.
    pub fn front_split_off(&mut self, at: usize) -> (r: Vec<T>)
        requires
            at <= old(self).cells().len(),
        ensures
            r@ == old(self).cells().subrange(0, at as int),
            final(self).cells() == old(self).cells().subrange(at as int, old(self).cells().len() as int),
            final(self).occ_count() == sat_sub_usize(old(self).occ_count(), at),
    {
        self.occ = self.occ.saturating_sub(at);
        let mut split = self.inner.split_off(at);
        core::mem::swap(&mut split, &mut self.inner);
        split
    }
}

/// `a - b`, or `0` where `b > a`.
pub open spec fn sat_sub_usize(a: usize, b: usize) -> usize {
    if a >= b {
        (a - b) as usize
    } else {
        0
    }
}

} // verus!
