use super::index::Line;
use vstd::prelude::*;

verus! {

/// How many rows beyond the live ones the storage keeps allocated before it trims them.
pub const MAX_CACHE_SIZE: usize = 1000;

/// The rows of a grid in a ring buffer, bottom row first, with spare rows kept for reuse.
#[derive(Clone, Debug, PartialEq, Eq)]
pub struct RowStorage<T> {
    inner: Vec<T>,
    zero: usize,
    visible_lines: usize,
    len: usize,
}

/// A number between `m` and `2m` leaves `a - m` over when divided by `m`.
pub proof fn lemma_mod_wrap(a: int, m: int)
    requires
        0 < m <= a < 2 * m,
    ensures
        a % m == a - m,
{
    vstd::arithmetic::div_mod::lemma_fundamental_div_mod_converse(a, m, 1, a - m);
}

/// The allocation `inner` read from position `zero` on, wrapping around.
pub open spec fn ring_of<T>(inner: Seq<T>, zero: int) -> Seq<T> {
    Seq::new(inner.len(), |k: int| inner[(zero + k) % (inner.len() as int)])
}

/// The first `len` rows of `ring`, in reverse: the top row first.
pub open spec fn rows_of<T>(ring: Seq<T>, len: int) -> Seq<T> {
    Seq::new(len as nat, |i: int| ring[len - 1 - i])
}

/// Changing one element of the allocation changes one row of the ring.
pub proof fn lemma_ring_of_update<T>(inner: Seq<T>, zero: int, logical: int, v: T)
    requires
        0 <= zero < inner.len(),
        0 <= logical < inner.len(),
    ensures
        ring_of(inner.update((zero + logical) % (inner.len() as int), v), zero) == ring_of(
            inner,
            zero,
        ).update(logical, v),
{
    let n = inner.len() as int;
    let m = (zero + logical) % n;
    assert forall|k: int| 0 <= k < n implies #[trigger] ring_of(inner.update(m, v), zero)[k]
        == ring_of(inner, zero).update(logical, v)[k] by {
        lemma_mod_in_range(zero + k, n);
        lemma_mod_in_range(zero + logical, n);
        if k != logical {
            lemma_mod_injective(zero, k, logical, n);
        }
    }
    assert(ring_of(inner.update(m, v), zero) =~= ring_of(inner, zero).update(logical, v));
}

/// Changing one row of the ring changes one live row.
pub proof fn lemma_rows_of_update<T>(ring: Seq<T>, len: int, index: int, v: T)
    requires
        0 <= index < len <= ring.len(),
    ensures
        rows_of(ring.update(len - 1 - index, v), len) == rows_of(ring, len).update(index, v),
{
    assert(rows_of(ring.update(len - 1 - index, v), len) =~= rows_of(ring, len).update(index, v));
}

/// A number between `0` and `2n` reduced modulo `n` is the number itself or `n` less.
pub proof fn lemma_mod_in_range(a: int, n: int)
    requires
        0 <= a < 2 * n,
    ensures
        a < n ==> a % n == a,
        a >= n ==> a % n == a - n,
{
    if a < n {
        vstd::arithmetic::div_mod::lemma_small_mod(a as nat, n as nat);
    } else {
        lemma_mod_wrap(a, n);
    }
}

/// Distinct positions of the ring sit at distinct positions of the allocation.
pub proof fn lemma_mod_injective(z: int, a: int, b: int, n: int)
    requires
        0 <= z < n,
        0 <= a < n,
        0 <= b < n,
        a != b,
    ensures
        (z + a) % n != (z + b) % n,
{
    lemma_mod_in_range(z + a, n);
    lemma_mod_in_range(z + b, n);
}

/// `s` turned so that element `c` comes first.
pub open spec fn rotate_seq<T>(s: Seq<T>, c: int) -> Seq<T> {
    Seq::new(s.len(), |k: int| s[(k + c) % (s.len() as int)])
}

/// `s` with the elements at `a` and `b` exchanged.
pub open spec fn swap_seq<T>(s: Seq<T>, a: int, b: int) -> Seq<T> {
    s.update(a, s[b]).update(b, s[a])
}

impl<T> RowStorage<T> {
    /// Every allocated row, the bottom live row first; the rows past `len` are spare.
    pub closed spec fn ring(&self) -> Seq<T> {
        ring_of(self.inner@, self.zero as int)
    }

    /// The live rows, top (oldest) first.
    pub open spec fn rows(&self) -> Seq<T> {
        rows_of(self.ring(), self.len_spec() as int)
    }

    /// The number of live rows.
    pub closed spec fn len_spec(&self) -> usize {
        self.len
    }

    /// The number of visible lines.
    pub closed spec fn visible_lines_spec(&self) -> usize {
        self.visible_lines
    }

    /// The storage is consistent: the live rows fit in the allocation and `zero` points into it.
    pub closed spec fn wf(&self) -> bool {
        &&& self.len <= self.inner@.len()
        &&& self.inner@.len() <= isize::MAX
        &&& (self.zero < self.inner@.len() || (self.zero == 0 && self.inner@.len() == 0))
    }

    /// The ring has as many rows as the allocation, and at least the live ones.
    pub proof fn lemma_wf(&self)
        requires
            self.wf(),
        ensures
            self.len_spec() <= self.ring().len(),
            self.ring().len() <= isize::MAX,
            self.rows().len() == self.len_spec(),
    {
    }

    /// A storage of `visible_lines` rows, the `k`-th of them made by `make_row(k)`.
    pub fn with_capacity<F>(visible_lines: usize, make_row: F) -> (r: Self) where F: Fn(usize) -> T
        requires
            visible_lines <= isize::MAX,
            forall|k: usize| k < visible_lines ==> make_row.requires((k,)),
        ensures
            r.wf(),
            r.len_spec() == visible_lines,
            r.visible_lines_spec() == visible_lines,
            r.ring().len() == visible_lines,
            forall|k: int| 0 <= k < visible_lines ==> make_row.ensures((k as usize,), #[trigger] r.ring()[k]),
    {
        let mut inner: Vec<T> = Vec::with_capacity(visible_lines);
        let mut k: usize = 0;
        while k < visible_lines
            invariant
                k <= visible_lines,
                inner@.len() == k,
                forall|k: usize| k < visible_lines ==> make_row.requires((k,)),
                forall|j: int| 0 <= j < k ==> make_row.ensures((j as usize,), #[trigger] inner@[j]),
            decreases visible_lines - k,
        {
            inner.push(make_row(k));
            k = k + 1;
        }
        let r = Self { inner, zero: 0, visible_lines, len: visible_lines };
        assert forall|k: int| 0 <= k < visible_lines implies make_row.ensures((k as usize,), #[trigger] r.ring()[k]) by {
            vstd::arithmetic::div_mod::lemma_small_mod(k as nat, visible_lines as nat);
        }
        r
    }

    /// The number of rows allocated, spare ones included.
    pub fn allocated(&self) -> (r: usize)
        ensures
            r == self.ring().len(),
    {
        self.inner.len()
    }

    /// The number of live rows.
    pub fn len(&self) -> (r: usize)
        ensures
            r == self.len_spec(),
    {
        self.len
    }

    /// Whether there are no live rows.
    pub fn is_empty(&self) -> (r: bool)
        ensures
            r == (self.len_spec() == 0),
    {
        self.len == 0
    }

    /// Turns the allocation so that the bottom live row is stored first.
    fn rezero(&mut self)
        requires
            old(self).wf(),
        ensures
            final(self).wf(),
            final(self).zero == 0,
            final(self).ring() == old(self).ring(),
            final(self).len == old(self).len,
            final(self).visible_lines == old(self).visible_lines,
    {
        if self.zero == 0 {
            proof {
                assert forall|k: int| 0 <= k < self.inner@.len() implies self.ring()[k] == self.inner@[k] by {
                    vstd::arithmetic::div_mod::lemma_small_mod(k as nat, self.inner@.len());
                }
                assert(self.ring() =~= old(self).ring());
            }
            return;
        }
        let ghost cap = self.inner@.len() as int;
        let ghost before = self.inner@;
        let mut front = self.inner.split_off(self.zero);
        front.append(&mut self.inner);
        self.inner = front;
        self.zero = 0;
        proof {
            assert forall|k: int| 0 <= k < cap implies #[trigger] self.ring()[k] == old(self).ring()[k] by {
                vstd::arithmetic::div_mod::lemma_small_mod(k as nat, cap as nat);
                let z = old(self).zero as int;
                if z + k < cap {
                    vstd::arithmetic::div_mod::lemma_small_mod((z + k) as nat, cap as nat);
                } else {
                    lemma_mod_wrap(z + k, cap);
                }
            }
            assert(self.ring() =~= old(self).ring());
        }
    }

    /// Drops the spare rows, keeping the live ones.
    pub fn truncate(&mut self)
        requires
            old(self).wf(),
        ensures
            final(self).wf(),
            final(self).ring() == old(self).ring().subrange(0, old(self).len_spec() as int),
            final(self).len_spec() == old(self).len_spec(),
            final(self).visible_lines_spec() == old(self).visible_lines_spec(),
            final(self).rows() == old(self).rows(),
    {
        self.rezero();
        let ghost r = self.ring();
        let ghost before = self.inner@;
        proof {
            assert forall|k: int| 0 <= k < before.len() implies #[trigger] r[k] == before[k] by {
                vstd::arithmetic::div_mod::lemma_small_mod(k as nat, before.len());
            }
        }
        self.inner.truncate(self.len);
        proof {
            assert forall|k: int| 0 <= k < self.inner@.len() implies #[trigger] self.ring()[k] == r[k] by {
                vstd::arithmetic::div_mod::lemma_small_mod(k as nat, self.inner@.len());
                assert(self.inner@[k] == before[k]);
            }
            assert(self.ring() =~= old(self).ring().subrange(0, old(self).len_spec() as int));
            assert(self.rows() =~= old(self).rows());
        }
    }

    /// Makes `additional_rows` more rows live. Where the allocation is too small, it first grows
    /// by the larger of `additional_rows` and `MAX_CACHE_SIZE` rows, the `k`-th made by
    /// `make_row(k)`; otherwise spare rows are reused as they are.
    pub fn initialize<F>(&mut self, additional_rows: usize, make_row: F) where F: Fn(usize) -> T
        requires
            old(self).wf(),
            old(self).len_spec() + additional_rows <= usize::MAX,
            old(self).ring().len() + additional_rows + MAX_CACHE_SIZE <= isize::MAX,
            forall|k: usize| k < additional_rows || k < MAX_CACHE_SIZE ==> make_row.requires((k,)),
        ensures
            final(self).wf(),
            final(self).len_spec() == old(self).len_spec() + additional_rows,
            final(self).visible_lines_spec() == old(self).visible_lines_spec(),
            old(self).len_spec() + additional_rows <= old(self).ring().len() ==> final(self).ring()
                == old(self).ring(),
            old(self).len_spec() + additional_rows > old(self).ring().len() ==> {
                let made = if additional_rows > MAX_CACHE_SIZE {
                    additional_rows
                } else {
                    MAX_CACHE_SIZE
                };
                &&& final(self).ring().len() == old(self).ring().len() + made
                &&& final(self).ring().subrange(0, old(self).ring().len() as int) == old(self).ring()
                &&& forall|k: int|
                    0 <= k < made ==> make_row.ensures(
                        (k as usize,),
                        #[trigger] final(self).ring()[old(self).ring().len() + k],
                    )
            },
    {
        if self.len + additional_rows > self.inner.len() {
            self.rezero();
            let ghost r = self.ring();
            let ghost cap = self.inner@.len();
            proof {
                assert forall|j: int| 0 <= j < cap implies #[trigger] r[j] == self.inner@[j] by {
                    vstd::arithmetic::div_mod::lemma_small_mod(j as nat, cap);
                }
                assert(self.inner@.subrange(0, cap as int) =~= r.subrange(0, cap as int));
            }
            let made = if additional_rows > MAX_CACHE_SIZE {
                additional_rows
            } else {
                MAX_CACHE_SIZE
            };
            let mut k: usize = 0;
            while k < made
                invariant
                    k <= made,
                    made == if additional_rows > MAX_CACHE_SIZE {
                        additional_rows
                    } else {
                        MAX_CACHE_SIZE
                    },
                    self.zero == 0,
                    self.len == old(self).len,
                    self.visible_lines == old(self).visible_lines,
                    self.inner@.len() == cap + k,
                    self.inner@.subrange(0, cap as int) == r.subrange(0, cap as int),
                    r.len() == cap,
                    cap == old(self).ring().len(),
                    r == old(self).ring(),
                    forall|j: int| 0 <= j < cap ==> #[trigger] r[j] == self.inner@[j],
                    forall|k: usize| k < additional_rows || k < MAX_CACHE_SIZE ==> make_row.requires((k,)),
                    forall|j: int| 0 <= j < k ==> make_row.ensures((j as usize,), #[trigger] self.inner@[cap + j]),
                decreases made - k,
            {
                self.inner.push(make_row(k));
                k = k + 1;
                proof {
                    assert forall|j: int| 0 <= j < cap implies #[trigger] r[j] == self.inner@[j] by {
                        assert(self.inner@[j] == self.inner@.subrange(0, cap as int)[j]);
                    }
                }
            }
            proof {
                let n = self.inner@.len();
                assert forall|j: int| 0 <= j < n implies #[trigger] self.ring()[j] == self.inner@[j] by {
                    vstd::arithmetic::div_mod::lemma_small_mod(j as nat, n);
                }
                assert(self.ring().subrange(0, cap as int) =~= old(self).ring());
            }
        }
        self.len = self.len + additional_rows;
    }

    /// Makes `next` the number of visible lines, adding rows as `initialize` does.
    pub fn grow_visible_lines<F>(&mut self, next: usize, make_row: F) where F: Fn(usize) -> T
        requires
            old(self).wf(),
            next >= old(self).visible_lines_spec(),
            old(self).len_spec() + (next - old(self).visible_lines_spec()) <= usize::MAX,
            old(self).ring().len() + (next - old(self).visible_lines_spec()) + MAX_CACHE_SIZE <= isize::MAX,
            forall|k: usize|
                k < (next - old(self).visible_lines_spec()) || k < MAX_CACHE_SIZE ==> make_row.requires((k,)),
        ensures
            final(self).wf(),
            final(self).visible_lines_spec() == next,
            final(self).len_spec() == old(self).len_spec() + (next - old(self).visible_lines_spec()),
            ({
                let add = (next - old(self).visible_lines_spec()) as int;
                &&& old(self).len_spec() + add <= old(self).ring().len() ==> final(self).ring() == old(self).ring()
                &&& old(self).len_spec() + add > old(self).ring().len() ==> {
                    let made = if add > MAX_CACHE_SIZE {
                        add
                    } else {
                        MAX_CACHE_SIZE as int
                    };
                    &&& final(self).ring().len() == old(self).ring().len() + made
                    &&& final(self).ring().subrange(0, old(self).ring().len() as int) == old(self).ring()
                    &&& forall|k: int|
                        0 <= k < made ==> make_row.ensures(
                            (k as usize,),
                            #[trigger] final(self).ring()[old(self).ring().len() + k],
                        )
                }
            }),
    {
        let additional_lines = next - self.visible_lines;
        self.initialize(additional_lines, make_row);
        self.visible_lines = next;
    }

    /// Makes `next` the number of visible lines, dropping as many live rows as lines were removed.
    pub fn shrink_visible_lines(&mut self, next: usize)
        requires
            old(self).wf(),
            next <= old(self).visible_lines_spec(),
            old(self).visible_lines_spec() - next <= old(self).len_spec(),
            old(self).len_spec() + MAX_CACHE_SIZE <= usize::MAX,
        ensures
            final(self).wf(),
            final(self).visible_lines_spec() == next,
            final(self).len_spec() == old(self).len_spec() - (old(self).visible_lines_spec() - next),
            final(self).ring() == old(self).ring() || final(self).ring() == old(self).ring().subrange(
                0,
                final(self).len_spec() as int,
            ),
            final(self).rows() == old(self).rows().subrange(
                (old(self).visible_lines_spec() - next) as int,
                old(self).len_spec() as int,
            ),
            final(self).ring().len() <= final(self).len_spec() + MAX_CACHE_SIZE,
    {
        let shrinkage = self.visible_lines - next;
        self.shrink_lines(shrinkage);
        self.visible_lines = next;
    }

    /// Drops `shrinkage` live rows from the bottom; where more than `MAX_CACHE_SIZE` rows would
    /// then be spare, the spare rows are freed.
    pub fn shrink_lines(&mut self, shrinkage: usize)
        requires
            old(self).wf(),
            shrinkage <= old(self).len_spec(),
            old(self).len_spec() + MAX_CACHE_SIZE <= usize::MAX,
        ensures
            final(self).wf(),
            final(self).visible_lines_spec() == old(self).visible_lines_spec(),
            final(self).len_spec() == old(self).len_spec() - shrinkage,
            final(self).ring() == old(self).ring() || final(self).ring() == old(self).ring().subrange(
                0,
                final(self).len_spec() as int,
            ),
            final(self).rows() == old(self).rows().subrange(shrinkage as int, old(self).len_spec() as int),
            final(self).ring().len() <= final(self).len_spec() + MAX_CACHE_SIZE,
    {
        self.len = self.len - shrinkage;
        proof {
            assert(self.rows() =~= old(self).rows().subrange(shrinkage as int, old(self).len as int));
        }
        if self.inner.len() > self.len + MAX_CACHE_SIZE {
            self.truncate();
        }
    }

    /// The row `index` lines below the top live row.
    pub fn get(&self, index: usize) -> (r: Option<&T>)
        requires
            self.wf(),
        ensures
            index < self.len_spec() ==> r == Some(&self.rows()[index as int]),
            index >= self.len_spec() ==> r is None,
    {
        if index < self.len {
            let mapped = self.compute_top_index(index);
            Some(&self.inner[mapped])
        } else {
            None
        }
    }

    /// The row `index` lines below the top live row, to change in place.
    pub fn get_mut(&mut self, index: usize) -> (r: Option<&mut T>)
        requires
            old(self).wf(),
        ensures
            index >= old(self).len_spec() ==> r is None && *final(self) == *old(self),
            index < old(self).len_spec() ==> {
                &&& r is Some
                &&& *r.unwrap() == old(self).rows()[index as int]
                &&& final(self).wf()
                &&& final(self).len_spec() == old(self).len_spec()
                &&& final(self).visible_lines_spec() == old(self).visible_lines_spec()
                &&& final(self).ring().len() == old(self).ring().len()
                &&& final(self).ring() == old(self).ring().update(
                    old(self).len_spec() - 1 - index,
                    *final(r.unwrap()),
                )
                &&& final(self).rows() == old(self).rows().update(index as int, *final(r.unwrap()))
            },
    {
        if index >= self.len {
            return None;
        }
        let mapped = self.compute_top_index(index);
        proof {
            let n = self.inner@.len() as int;
            let l = (self.len - 1 - index) as int;
            assert forall|v: T| #[trigger] ring_of(self.inner@.update(mapped as int, v), self.zero as int)
                == ring_of(self.inner@, self.zero as int).update(l, v) by {
                lemma_ring_of_update(self.inner@, self.zero as int, l, v);
            }
            assert forall|v: T| #[trigger] rows_of(self.ring().update(l, v), self.len as int)
                == rows_of(self.ring(), self.len as int).update(index as int, v) by {
                lemma_rows_of_update(self.ring(), self.len as int, index as int, v);
            }
        }
        Some(&mut self.inner[mapped])
    }

    /// The position in the allocation of the row `logical` rows above the bottom live row.
    fn compute_absolute_index(&self, logical: usize) -> (r: usize)
        requires
            self.wf(),
            logical < self.inner@.len(),
        ensures
            r == (self.zero + logical) % (self.inner@.len() as int),
            r < self.inner@.len(),
    {
        let zeroed = self.zero + logical;
        if zeroed >= self.inner.len() {
            proof {
                lemma_mod_wrap(zeroed as int, self.inner@.len() as int);
            }
            zeroed - self.inner.len()
        } else {
            proof {
                vstd::arithmetic::div_mod::lemma_small_mod(zeroed as nat, self.inner@.len());
            }
            zeroed
        }
    }

    /// The position in the allocation of the row `logical_top` rows below the top live row.
    fn compute_top_index(&self, logical_top: usize) -> (r: usize)
        requires
            self.wf(),
            logical_top < self.len,
        ensures
            r == (self.zero + (self.len - 1 - logical_top)) % (self.inner@.len() as int),
            r < self.inner@.len(),
            self.rows()[logical_top as int] == self.inner@[r as int],
    {
        let positive = self.len - logical_top - 1;
        self.compute_absolute_index(positive)
    }

    /// The position in the allocation of `requested`, a line counted from the top visible line.
    fn compute_index(&self, requested: Line) -> (r: usize)
        requires
            self.wf(),
            self.visible_lines <= i32::MAX,
            0 <= self.visible_lines - 1 - requested.0 < self.len,
        ensures
            r == (self.zero + (self.visible_lines - 1 - requested.0)) % (self.inner@.len() as int),
            r < self.inner@.len(),
    {
        let positive = (self.visible_lines as i64 - 1 - requested.0 as i64) as usize;
        self.compute_absolute_index(positive)
    }

    /// `other` is this storage with the rows at lines `a` and `b` exchanged, as `swap` leaves
    /// it.
    pub open spec fn swapped(&self, other: &Self, a: Line, b: Line) -> bool {
        &&& other.wf()
        &&& other.len_spec() == self.len_spec()
        &&& other.visible_lines_spec() == self.visible_lines_spec()
        &&& other.ring() == swap_seq(self.ring(), self.visible_lines_spec() - 1 - a.0, self.visible_lines_spec() - 1 - b.0)
        &&& other.rows() == swap_seq(
            self.rows(),
            self.len_spec() - self.visible_lines_spec() + a.0,
            self.len_spec() - self.visible_lines_spec() + b.0,
        )
    }

    /// Exchanges two rows, each given as a line counted from the top visible line.
    pub fn swap(&mut self, a: Line, b: Line)
        requires
            old(self).wf(),
            old(self).visible_lines_spec() <= i32::MAX,
            0 <= old(self).visible_lines_spec() - 1 - a.0 < old(self).len_spec(),
            0 <= old(self).visible_lines_spec() - 1 - b.0 < old(self).len_spec(),
        ensures
            final(self).wf(),
            final(self).len_spec() == old(self).len_spec(),
            final(self).visible_lines_spec() == old(self).visible_lines_spec(),
            final(self).ring().len() == old(self).ring().len(),
            final(self).ring() == swap_seq(
                old(self).ring(),
                old(self).visible_lines_spec() - 1 - a.0,
                old(self).visible_lines_spec() - 1 - b.0,
            ),
            final(self).rows() == swap_seq(
                old(self).rows(),
                old(self).len_spec() - old(self).visible_lines_spec() + a.0,
                old(self).len_spec() - old(self).visible_lines_spec() + b.0,
            ),
            old(self).swapped(final(self), a, b),
    {
        let ia = self.compute_index(a);
        let ib = self.compute_index(b);
        proof {
            let n = self.inner@.len() as int;
            let la = self.visible_lines - 1 - a.0;
            let lb = self.visible_lines - 1 - b.0;
            assert forall|k: int| 0 <= k < n implies #[trigger] ring_of(swap_seq(self.inner@, ia as int, ib as int), self.zero as int)[k]
                == swap_seq(self.ring(), la, lb)[k] by {
                lemma_mod_in_range(self.zero + k, n);
                if k != la {
                    lemma_mod_injective(self.zero as int, k, la, n);
                }
                if k != lb {
                    lemma_mod_injective(self.zero as int, k, lb, n);
                }
            }
            assert(ring_of(swap_seq(self.inner@, ia as int, ib as int), self.zero as int) =~= swap_seq(self.ring(), la, lb));
        }
        vec_swap(&mut self.inner, ia, ib);
        proof {
            let len = self.len as int;
            let vl = self.visible_lines as int;
            assert(self.rows() =~= swap_seq(old(self).rows(), len - vl + a.0, len - vl + b.0));
        }
    }

    /// `other` is this storage turned by `count` rows, as `rotate` leaves it: the same live and
    /// visible counts, and its ring turned so that row `count` (taken around the ring) comes first.
    pub open spec fn rotated(&self, other: &Self, count: int) -> bool {
        &&& other.wf()
        &&& other.len_spec() == self.len_spec()
        &&& other.visible_lines_spec() == self.visible_lines_spec()
        &&& other.ring().len() == self.ring().len()
        &&& other.ring() == rotate_seq(self.ring(), count + self.ring().len())
    }

    /// Turns the ring by `count` rows: the row `count` above the bottom becomes the bottom row.
    pub fn rotate(&mut self, count: isize)
        requires
            old(self).wf(),
            old(self).ring().len() > 0,
            -(old(self).ring().len() as int) <= count <= old(self).ring().len(),
        ensures
            final(self).wf(),
            final(self).len_spec() == old(self).len_spec(),
            final(self).visible_lines_spec() == old(self).visible_lines_spec(),
            final(self).ring().len() == old(self).ring().len(),
            final(self).ring() == rotate_seq(old(self).ring(), count + old(self).ring().len()),
            old(self).rotated(final(self), count as int),
            count <= 0 ==> forall|i: int| 0 <= i < old(self).len_spec() + count ==> #[trigger] final(self).rows()[i] == old(self).rows()[i - count],
            count >= 0 ==> forall|i: int| count <= i < old(self).len_spec() ==> #[trigger] final(self).rows()[i] == old(self).rows()[i - count],
    {
        let len = self.inner.len();
        let ghost c = count + len;
        self.zero = ((self.zero as i128 + count as i128 + len as i128) % (len as i128)) as usize;
        proof {
            let n = len as int;
            assert forall|k: int| 0 <= k < n implies #[trigger] self.ring()[k]
                == rotate_seq(old(self).ring(), count + n)[k] by {
                vstd::arithmetic::div_mod::lemma_add_mod_noop_right(k, old(self).zero + c, n);
                vstd::arithmetic::div_mod::lemma_add_mod_noop_right(old(self).zero as int, k + c, n);
                lemma_mod_in_range_gen(k + c, n);
            }
            assert(self.ring() =~= rotate_seq(old(self).ring(), count + n));
            if count <= 0 {
                let len = self.len as int;
                assert forall|i: int| 0 <= i < len + count implies #[trigger] self.rows()[i] == old(self).rows()[i - count] by {
                    let k = len - 1 - i;
                    lemma_mod_in_range_gen(k + c, n);
                    assert((k + c) % n == k + count) by {
                        assert(0 <= k + count < n);
                        vstd::arithmetic::div_mod::lemma_mod_add_multiples_vanish(k + count, n);
                        vstd::arithmetic::div_mod::lemma_small_mod((k + count) as nat, n as nat);
                    }
                }
            }
            if count >= 0 {
                let len = self.len as int;
                assert forall|i: int| count <= i < len implies #[trigger] self.rows()[i] == old(self).rows()[i - count] by {
                    let k = len - 1 - i;
                    lemma_mod_in_range_gen(k + c, n);
                    assert((k + c) % n == k + count) by {
                        assert(0 <= k + count < n);
                        vstd::arithmetic::div_mod::lemma_mod_add_multiples_vanish(k + count, n);
                        vstd::arithmetic::div_mod::lemma_small_mod((k + count) as nat, n as nat);
                    }
                }
            }
        }
    }

    /// Turns the ring by `count` rows the other way round.
    pub fn rotate_down(&mut self, count: usize)
        requires
            old(self).wf(),
            old(self).ring().len() > 0,
        ensures
            final(self).wf(),
            final(self).len_spec() == old(self).len_spec(),
            final(self).visible_lines_spec() == old(self).visible_lines_spec(),
            final(self).ring().len() == old(self).ring().len(),
            final(self).ring() == rotate_seq(old(self).ring(), count as int),
            forall|i: int| count <= i < old(self).len_spec() ==> #[trigger] final(self).rows()[i] == old(self).rows()[i - count],
    {
        let len = self.inner.len();
        let step = count % len;
        self.zero = (self.zero + step) % len;
        proof {
            let n = len as int;
            assert forall|k: int| 0 <= k < n implies #[trigger] self.ring()[k]
                == rotate_seq(old(self).ring(), count as int)[k] by {
                vstd::arithmetic::div_mod::lemma_add_mod_noop_right(k, old(self).zero + step, n);
                vstd::arithmetic::div_mod::lemma_add_mod_noop_right(old(self).zero + k, count as int, n);
                assert(old(self).zero + step + k == (old(self).zero + k) + (count as int) % n);
                vstd::arithmetic::div_mod::lemma_add_mod_noop_right(old(self).zero as int, k + count, n);
                lemma_mod_in_range_gen(k + count, n);
            }
            assert(self.ring() =~= rotate_seq(old(self).ring(), count as int));
            let l = self.len as int;
            assert forall|i: int| count <= i < l implies #[trigger] self.rows()[i] == old(self).rows()[i - count] by {
                let k = l - 1 - i;
                assert(0 <= k + count < n);
                vstd::arithmetic::div_mod::lemma_small_mod((k + count) as nat, n as nat);
            }
        }
    }

    /// `other` holds exactly the rows `v`, the topmost first, as `replace_inner` leaves it.
    pub open spec fn refilled(&self, other: &Self, v: Seq<T>) -> bool {
        &&& other.wf()
        &&& other.len_spec() == v.len()
        &&& other.ring().len() == v.len()
        &&& other.rows() == v
        &&& other.visible_lines_spec() == self.visible_lines_spec()
    }

    /// Replaces all rows by `vec`, top row first; no row is spare afterwards.
    pub fn replace_inner(&mut self, vec: Vec<T>)
        requires
            vec@.len() <= isize::MAX,
        ensures
            final(self).wf(),
            final(self).len_spec() == vec@.len(),
            final(self).ring().len() == vec@.len(),
            final(self).rows() == vec@,
            final(self).visible_lines_spec() == old(self).visible_lines_spec(),
            old(self).refilled(final(self), vec@),
    {
        let ghost v = vec@;
        let mut vec = vec;
        let mut reversed: Vec<T> = Vec::with_capacity(vec.len());
        while vec.len() > 0
            invariant
                vec@.len() + reversed@.len() == v.len(),
                vec@ == v.subrange(0, vec@.len() as int),
                forall|j: int| 0 <= j < reversed@.len() ==> #[trigger] reversed@[j] == v[v.len() - 1 - j],
            decreases vec@.len(),
        {
            let x = vec.pop().unwrap();
            reversed.push(x);
        }
        self.len = reversed.len();
        self.inner = reversed;
        self.zero = 0;
        proof {
            let n = self.inner@.len();
            assert forall|k: int| 0 <= k < n implies #[trigger] self.ring()[k] == self.inner@[k] by {
                vstd::arithmetic::div_mod::lemma_small_mod(k as nat, n);
            }
            assert(self.rows() =~= v);
        }
    }

    /// Takes every live row out, top row first, leaving the storage empty.
    pub fn take_all(&mut self) -> (r: Vec<T>)
        requires
            old(self).wf(),
        ensures
            r@ == old(self).rows(),
            final(self).wf(),
            final(self).len_spec() == 0,
            final(self).ring().len() == 0,
            final(self).visible_lines_spec() == old(self).visible_lines_spec(),
    {
        self.rezero();
        proof {
            let n = self.inner@.len();
            assert forall|k: int| 0 <= k < n implies #[trigger] self.ring()[k] == self.inner@[k] by {
                vstd::arithmetic::div_mod::lemma_small_mod(k as nat, n);
            }
        }
        let ghost live = self.ring();
        self.inner.truncate(self.len);
        let mut buffer: Vec<T> = Vec::new();
        core::mem::swap(&mut buffer, &mut self.inner);
        self.len = 0;
        self.zero = 0;
        let mut out: Vec<T> = Vec::with_capacity(buffer.len());
        let ghost b = buffer@;
        assert(b == live.subrange(0, old(self).len as int));
        while buffer.len() > 0
            invariant
                buffer@.len() + out@.len() == b.len(),
                buffer@ == b.subrange(0, buffer@.len() as int),
                forall|j: int| 0 <= j < out@.len() ==> #[trigger] out@[j] == b[b.len() - 1 - j],
            decreases buffer@.len(),
        {
            let x = buffer.pop().unwrap();
            out.push(x);
        }
        proof {
            assert(out@ =~= old(self).rows());
        }
        out
    }

    /// The row at `line`, counted from the top visible line.
    pub fn line(&self, line: Line) -> (r: &T)
        requires
            self.wf(),
            self.visible_lines_spec() <= i32::MAX,
            0 <= self.visible_lines_spec() - 1 - line.0 < self.len_spec(),
        ensures
            *r == self.ring()[self.visible_lines_spec() - 1 - line.0],
    {
        let i = self.compute_index(line);
        &self.inner[i]
    }

    /// The row at `line`, counted from the top visible line, to change in place.
    pub fn line_mut(&mut self, line: Line) -> (r: &mut T)
        requires
            old(self).wf(),
            old(self).visible_lines_spec() <= i32::MAX,
            0 <= old(self).visible_lines_spec() - 1 - line.0 < old(self).len_spec(),
        ensures
            *r == old(self).ring()[old(self).visible_lines_spec() - 1 - line.0],
            final(self).wf(),
            final(self).len_spec() == old(self).len_spec(),
            final(self).visible_lines_spec() == old(self).visible_lines_spec(),
            final(self).ring().len() == old(self).ring().len(),
            final(self).ring() == old(self).ring().update(
                old(self).visible_lines_spec() - 1 - line.0,
                *final(r),
            ),
    {
        let i = self.compute_index(line);
        proof {
            let l = self.visible_lines - 1 - line.0;
            assert forall|v: T| #[trigger] ring_of(self.inner@.update(i as int, v), self.zero as int)
                == ring_of(self.inner@, self.zero as int).update(l, v) by {
                lemma_ring_of_update(self.inner@, self.zero as int, l, v);
            }
        }
        &mut self.inner[i]
    }

    /// References to the live rows, top row first.
    pub fn iter(&self) -> (r: Vec<&T>)
        requires
            self.wf(),
        ensures
            r@.len() == self.len_spec(),
            forall|i: int| 0 <= i < r@.len() ==> *#[trigger] r@[i] == self.rows()[i],
    {
        let mut out: Vec<&T> = Vec::with_capacity(self.len);
        let mut i: usize = 0;
        while i < self.len
            invariant
                self.wf(),
                i <= self.len,
                out@.len() == i,
                forall|j: int| 0 <= j < i ==> *#[trigger] out@[j] == self.rows()[j],
            decreases self.len - i,
        {
            let mapped = self.compute_top_index(i);
            out.push(&self.inner[mapped]);
            i = i + 1;
        }
        out
    }
}

/// A number between `0` and `2n` reduced modulo `n` lies in `0..n`.
proof fn lemma_mod_in_range_gen(a: int, n: int)
    requires
        0 < n,
        0 <= a,
    ensures
        0 <= a % n < n,
{
}

/// Exchanges two elements of a vector.
#[verifier::external_body]
fn vec_swap<T>(v: &mut Vec<T>, a: usize, b: usize)
    requires
        a < old(v)@.len(),
        b < old(v)@.len(),
    ensures
        final(v)@ == swap_seq(old(v)@, a as int, b as int),
{
    v.swap(a, b);
}

} // verus!
