//! A dense N-dimensional board over a single flat buffer.
//!
//! `VecBoard` owns a flat storage vector whose length is the product of the
//! per-axis extents, together with a derived stride table (`coeffs`). A
//! coordinate is mapped to a linear offset as the sum, over the axes, of
//! stride times component. The stride of axis `j` is the product of the
//! first `N - 1 - j` extents, so the stride table read left to right holds
//! the running extent products in descending order and ends in 1.

use vstd::prelude::*;

use crate::coordinate::C;
use crate::coordinate::to_ints;

verus! {

/// Why a storage access was refused.
#[derive(Debug, Clone, Copy, PartialEq, Eq, Structural)]
pub enum BoardError {
    /// A coordinate component lies outside `[0, extent)` for its axis.
    CoordOutOfRange,
    /// A linear offset lies outside `[0, storage length)`.
    OffsetOutOfRange,
}

/// The product of the first `i` entries of `dims`; 1 when `i <= 0`
/// (in particular the empty product, for a zero-dimensional board, is 1).
pub open spec fn prefix_prod(dims: Seq<int>, i: int) -> int
    decreases i,
{
    if i <= 0 {
        1
    } else {
        prefix_prod(dims, i - 1) * dims[i - 1]
    }
}

/// The partial linear offset over the first `i` axes: the sum of
/// `coeffs[j] * c[j]` for `j < i`.
pub open spec fn offset_prefix(coeffs: Seq<int>, c: Seq<int>, i: int) -> int
    decreases i,
{
    if i <= 0 {
        0
    } else {
        offset_prefix(coeffs, c, i - 1) + coeffs[i - 1] * c[i - 1]
    }
}

/// A product of non-negative extents is non-negative.
pub proof fn lemma_prefix_prod_nonneg(dims: Seq<int>, i: int)
    requires
        i <= dims.len(),
        forall|k: int| 0 <= k < dims.len() ==> dims[k] >= 0,
    ensures
        prefix_prod(dims, i) >= 0,
    decreases i,
{
    if i > 0 {
        lemma_prefix_prod_nonneg(dims, i - 1);
        assert(prefix_prod(dims, i - 1) * dims[i - 1] >= 0) by (nonlinear_arith)
            requires
                prefix_prod(dims, i - 1) >= 0,
                dims[i - 1] >= 0,
        ;
    }
}

/// A product of strictly positive extents is strictly positive.
pub proof fn lemma_prefix_prod_pos(dims: Seq<int>, i: int)
    requires
        i <= dims.len(),
        forall|k: int| 0 <= k < dims.len() ==> dims[k] >= 1,
    ensures
        prefix_prod(dims, i) >= 1,
    decreases i,
{
    if i > 0 {
        lemma_prefix_prod_pos(dims, i - 1);
        assert(prefix_prod(dims, i - 1) * dims[i - 1] >= 1) by (nonlinear_arith)
            requires
                prefix_prod(dims, i - 1) >= 1,
                dims[i - 1] >= 1,
        ;
    }
}

/// With non-negative strides and components, the partial offsets grow
/// towards the full offset: the full sum is at least any partial sum.
pub proof fn lemma_offset_prefix_mono(coeffs: Seq<int>, c: Seq<int>, i: int)
    requires
        0 <= i <= coeffs.len(),
        c.len() == coeffs.len(),
        forall|k: int| 0 <= k < coeffs.len() ==> coeffs[k] >= 0,
        forall|k: int| 0 <= k < c.len() ==> c[k] >= 0,
    ensures
        offset_prefix(coeffs, c, coeffs.len() as int) >= offset_prefix(coeffs, c, i),
    decreases coeffs.len() - i,
{
    if i < coeffs.len() {
        lemma_offset_prefix_mono(coeffs, c, i + 1);
        assert(coeffs[i] * c[i] >= 0) by (nonlinear_arith)
            requires
                coeffs[i] >= 0,
                c[i] >= 0,
        ;
    }
}

/// A dense N-dimensional board: flat storage `d`, per-axis extents `dims`,
/// and the derived stride table `coeffs`.
#[derive(Debug)]
pub struct VecBoard {
    /// Flat storage; its length is the product of all extents.
    pub d: Vec<i32>,
    /// Per-axis extents (axis lengths), all non-negative.
    pub dims: Vec<i32>,
    /// Per-axis strides: `coeffs[j]` is the product of the first
    /// `N - 1 - j` extents, so the last entry is always 1.
    pub coeffs: Vec<i32>,
}

impl VecBoard {
    /// The extents as mathematical integers.
    pub open spec fn dims_seq(&self) -> Seq<int> {
        to_ints(self.dims@)
    }

    /// The strides as mathematical integers.
    pub open spec fn coeffs_seq(&self) -> Seq<int> {
        to_ints(self.coeffs@)
    }

    /// The linear offset that a coordinate with components `c` maps to:
    /// the sum over all axes of stride times component.
    pub open spec fn spec_offset(&self, c: Seq<int>) -> int {
        offset_prefix(self.coeffs_seq(), c, self.coeffs@.len() as int)
    }

    /// Every component of `c` lies inside its axis: `0 <= c[i] < dims[i]`.
    pub open spec fn coord_in_range(&self, c: Seq<int>) -> bool {
        forall|i: int| 0 <= i < self.dims@.len() ==> 0 <= #[trigger] c[i] < self.dims_seq()[i]
    }

    /// Structural well-formedness: extents are non-negative, the stride
    /// table is derived from them by the running-product rule, and the
    /// storage length is the product of all extents (which fits in `i32`).
    pub open spec fn wf(&self) -> bool {
        &&& self.coeffs@.len() == self.dims@.len()
        &&& forall|i: int| 0 <= i < self.dims@.len() ==> self.dims_seq()[i] >= 0
        &&& forall|j: int|
            0 <= j < self.coeffs@.len() ==> self.coeffs_seq()[j] == prefix_prod(
                self.dims_seq(),
                self.dims@.len() - 1 - j,
            )
        &&& self.d@.len() == prefix_prod(self.dims_seq(), self.dims@.len() as int)
        &&& self.d@.len() <= i32::MAX
    }

    /// A board with the given extents: storage of length equal to the
    /// product of the extents, every slot holding zero (the scalar
    /// default), and the stride table computed from the extents. Zero
    /// extents are legal and give empty storage; zero axes give a single
    /// scalar slot.
    pub fn new(dims: Vec<i32>) -> (r: VecBoard)
        requires
            forall|i: int| 0 <= i < dims@.len() ==> to_ints(dims@)[i] >= 0,
            forall|i: int|
                0 <= i <= dims@.len() ==> #[trigger] prefix_prod(to_ints(dims@), i) <= i32::MAX,
        ensures
            r.wf(),
            r.dims@ == dims@,
            r.d@.len() == prefix_prod(to_ints(dims@), dims@.len() as int),
            forall|i: int| 0 <= i < r.d@.len() ==> r.d@[i] == 0,
    {
        let n: usize = dims.len();
        let ghost gd: Seq<int> = to_ints(dims@);
        let mut pp: Vec<i32> = Vec::new();
        let mut prod: i32 = 1;
        for i in 0..n
            invariant
                n == dims@.len(),
                gd == to_ints(dims@),
                forall|k: int| 0 <= k < dims@.len() ==> gd[k] >= 0,
                forall|k: int| 0 <= k <= dims@.len() ==> #[trigger] prefix_prod(gd, k) <= i32::MAX,
                pp@.len() == i,
                forall|k: int| 0 <= k < i ==> pp@[k] == prefix_prod(gd, k),
                prod == prefix_prod(gd, i as int),
                prod >= 0,
        {
            pp.push(prod);
            proof {
                lemma_prefix_prod_nonneg(gd, i + 1);
                assert(prefix_prod(gd, i + 1) == prefix_prod(gd, i as int) * gd[i as int]);
                assert(gd[i as int] == dims@[i as int]);
            }
            prod = prod * dims[i];
        }
        let mut coeffs: Vec<i32> = Vec::new();
        for j in 0..n
            invariant
                n == dims@.len(),
                gd == to_ints(dims@),
                pp@.len() == n,
                forall|k: int| 0 <= k < n ==> pp@[k] == prefix_prod(gd, k),
                coeffs@.len() == j,
                forall|k: int| 0 <= k < j ==> coeffs@[k] == prefix_prod(gd, n - 1 - k),
        {
            coeffs.push(pp[n - 1 - j]);
        }
        let len: usize = prod as usize;
        let mut d: Vec<i32> = Vec::new();
        for i in 0..len
            invariant
                d@.len() == i,
                forall|k: int| 0 <= k < i ==> d@[k] == 0,
        {
            d.push(0);
        }
        let r = VecBoard { d, dims, coeffs };
        proof {
            assert(r.dims_seq() == gd);
            assert forall|j: int| 0 <= j < r.coeffs@.len() implies r.coeffs_seq()[j] == prefix_prod(
                r.dims_seq(),
                r.dims@.len() - 1 - j,
            ) by {
                assert(r.coeffs_seq()[j] == r.coeffs@[j] as int);
            }
        }
        r
    }

    /// The raw linear offset of a coordinate: the sum over the axes of
    /// stride times component. No bounds are checked: out-of-range or
    /// negative components give a well-defined but possibly out-of-storage
    /// offset, and the caller must stay in range before using it. The
    /// preconditions only keep every partial product and partial sum
    /// within `i32`.
    pub fn index_of(&self, c: &C) -> (r: i32)
        requires
            self.coeffs@.len() == c.d@.len(),
            forall|i: int|
                0 <= i < self.coeffs@.len() ==> i32::MIN <= (#[trigger] self.coeffs_seq()[i]) * c@[i]
                    <= i32::MAX,
            forall|i: int|
                0 <= i <= self.coeffs@.len() ==> i32::MIN <= #[trigger] offset_prefix(
                    self.coeffs_seq(),
                    c@,
                    i,
                ) <= i32::MAX,
        ensures
            r as int == self.spec_offset(c@),
    {
        let n: usize = self.coeffs.len();
        let mut index: i32 = 0;
        for i in 0..n
            invariant
                n == self.coeffs@.len(),
                self.coeffs@.len() == c.d@.len(),
                forall|k: int|
                    0 <= k < self.coeffs@.len() ==> i32::MIN <= (#[trigger] self.coeffs_seq()[k])
                        * c@[k] <= i32::MAX,
                forall|k: int|
                    0 <= k <= self.coeffs@.len() ==> i32::MIN <= #[trigger] offset_prefix(
                        self.coeffs_seq(),
                        c@,
                        k,
                    ) <= i32::MAX,
                index == offset_prefix(self.coeffs_seq(), c@, i as int),
        {
            proof {
                assert(self.coeffs_seq()[i as int] == self.coeffs@[i as int]);
                assert(c@[i as int] == c.d@[i as int]);
                assert(offset_prefix(self.coeffs_seq(), c@, i + 1) == offset_prefix(
                    self.coeffs_seq(),
                    c@,
                    i as int,
                ) + self.coeffs_seq()[i as int] * c@[i as int]);
            }
            index = index + self.coeffs[i] * c.d[i];
        }
        index
    }

    /// The element at a raw linear offset, or `OffsetOutOfRange` exactly
    /// when the offset is negative or at least the storage length.
    pub fn get_by_offset(&self, offset: i32) -> (r: Result<i32, BoardError>)
        ensures
            0 <= offset < self.d@.len() ==> r == Ok::<i32, BoardError>(self.d@[offset as int]),
            !(0 <= offset < self.d@.len()) ==> r == Err::<i32, BoardError>(
                BoardError::OffsetOutOfRange,
            ),
    {
        if offset < 0 {
            return Err(BoardError::OffsetOutOfRange);
        }
        let idx: usize = offset as usize;
        if idx >= self.d.len() {
            return Err(BoardError::OffsetOutOfRange);
        }
        Ok(self.d[idx])
    }

    /// The linear offset of a coordinate, validated on both ends: every
    /// component must lie inside its axis (`CoordOutOfRange` otherwise,
    /// checked first), and the resulting offset must lie inside storage
    /// (`OffsetOutOfRange` otherwise). On success the returned offset is
    /// exactly the stride/component sum and is a valid storage index.
    pub fn checked_offset_of(&self, c: &C) -> (r: Result<usize, BoardError>)
        requires
            self.wf(),
            c.d@.len() == self.dims@.len(),
        ensures
            !self.coord_in_range(c@) ==> r == Err::<usize, BoardError>(BoardError::CoordOutOfRange),
            self.coord_in_range(c@) && self.spec_offset(c@) >= self.d@.len() ==> r == Err::<
                usize,
                BoardError,
            >(BoardError::OffsetOutOfRange),
            self.coord_in_range(c@) && self.spec_offset(c@) < self.d@.len() ==> (r matches Ok(o)
                && o as int == self.spec_offset(c@)),
    {
        let n: usize = self.dims.len();
        for i in 0..n
            invariant
                n == self.dims@.len(),
                c.d@.len() == self.dims@.len(),
                forall|k: int| 0 <= k < i ==> 0 <= #[trigger] c@[k] < self.dims_seq()[k],
        {
            proof {
                assert(c@[i as int] == c.d@[i as int]);
                assert(self.dims_seq()[i as int] == self.dims@[i as int]);
            }
            if c.d[i] < 0 || c.d[i] >= self.dims[i] {
                return Err(BoardError::CoordOutOfRange);
            }
        }
        proof {
            assert(self.coord_in_range(c@));
            assert forall|j: int| 0 <= j < self.coeffs@.len() implies #[trigger] self.coeffs_seq()[j]
                >= 0 by {
                lemma_prefix_prod_nonneg(self.dims_seq(), self.dims@.len() - 1 - j);
            }
            assert forall|k: int| 0 <= k < self.dims@.len() implies self.dims_seq()[k] >= 1 by {
                assert(0 <= c@[k] < self.dims_seq()[k]);
            }
            lemma_prefix_prod_pos(self.dims_seq(), self.dims@.len() as int);
        }
        let len: usize = self.d.len();
        let mut acc: i64 = 0;
        for i in 0..n
            invariant
                n == self.dims@.len(),
                c.d@.len() == self.dims@.len(),
                self.wf(),
                self.coord_in_range(c@),
                forall|j: int| 0 <= j < self.coeffs@.len() ==> #[trigger] self.coeffs_seq()[j] >= 0,
                len == self.d@.len(),
                1 <= len <= i32::MAX,
                acc == offset_prefix(self.coeffs_seq(), c@, i as int),
                0 <= acc < len,
        {
            proof {
                assert(self.coeffs_seq()[i as int] == self.coeffs@[i as int]);
                assert(c@[i as int] == c.d@[i as int]);
                assert(0 <= c@[i as int]);
                assert((self.coeffs@[i as int] as int) * (c.d@[i as int] as int)
                    < 0x4000_0000_0000_0000) by (nonlinear_arith)
                    requires
                        0 <= self.coeffs@[i as int],
                        (self.coeffs@[i as int] as int) < 0x8000_0000,
                        0 <= c.d@[i as int],
                        (c.d@[i as int] as int) < 0x8000_0000,
                ;
                assert(offset_prefix(self.coeffs_seq(), c@, i + 1) == offset_prefix(
                    self.coeffs_seq(),
                    c@,
                    i as int,
                ) + self.coeffs_seq()[i as int] * c@[i as int]);
            }
            let term: i64 = (self.coeffs[i] as i64) * (c.d[i] as i64);
            acc = acc + term;
            if acc >= len as i64 {
                proof {
                    lemma_offset_prefix_mono(self.coeffs_seq(), c@, i + 1);
                }
                return Err(BoardError::OffsetOutOfRange);
            }
        }
        Ok(acc as usize)
    }

    /// The element a coordinate resolves to: `get_by_offset` applied to the
    /// validated offset of the coordinate, under the same bounds contract
    /// as `checked_offset_of`.
    pub fn get_by_coordinate(&self, c: &C) -> (r: Result<i32, BoardError>)
        requires
            self.wf(),
            c.d@.len() == self.dims@.len(),
        ensures
            !self.coord_in_range(c@) ==> r == Err::<i32, BoardError>(BoardError::CoordOutOfRange),
            self.coord_in_range(c@) && self.spec_offset(c@) >= self.d@.len() ==> r == Err::<
                i32,
                BoardError,
            >(BoardError::OffsetOutOfRange),
            self.coord_in_range(c@) && self.spec_offset(c@) < self.d@.len() ==> r == Ok::<
                i32,
                BoardError,
            >(self.d@[self.spec_offset(c@)]),
    {
        match self.checked_offset_of(c) {
            Ok(offset) => Ok(self.d[offset]),
            Err(e) => Err(e),
        }
    }

    /// Writes `v` at a raw linear offset. The storage slot at that offset
    /// is replaced and everything else is untouched; a negative offset or
    /// one at least the storage length changes nothing and reports
    /// `OffsetOutOfRange`.
    pub fn set_by_offset(&mut self, offset: i32, v: i32) -> (r: Result<(), BoardError>)
        ensures
            0 <= offset < old(self).d@.len() ==> {
                &&& r == Ok::<(), BoardError>(())
                &&& final(self).d@ == old(self).d@.update(offset as int, v)
                &&& final(self).dims@ == old(self).dims@
                &&& final(self).coeffs@ == old(self).coeffs@
            },
            !(0 <= offset < old(self).d@.len()) ==> {
                &&& r == Err::<(), BoardError>(BoardError::OffsetOutOfRange)
                &&& *final(self) == *old(self)
            },
            old(self).wf() ==> final(self).wf(),
    {
        if offset < 0 {
            return Err(BoardError::OffsetOutOfRange);
        }
        let idx: usize = offset as usize;
        if idx >= self.d.len() {
            return Err(BoardError::OffsetOutOfRange);
        }
        self.d.set(idx, v);
        proof {
            assert(self.d@.len() == old(self).d@.len());
            assert(self.dims_seq() == old(self).dims_seq());
            assert(self.coeffs_seq() == old(self).coeffs_seq());
        }
        Ok(())
    }

    /// Writes `v` at the slot a coordinate resolves to, under the same
    /// bounds contract as `checked_offset_of`; on failure nothing changes.
    pub fn set_by_coordinate(&mut self, c: &C, v: i32) -> (r: Result<(), BoardError>)
        requires
            old(self).wf(),
            c.d@.len() == old(self).dims@.len(),
        ensures
            final(self).wf(),
            !old(self).coord_in_range(c@) ==> r == Err::<(), BoardError>(BoardError::CoordOutOfRange)
                && *final(self) == *old(self),
            old(self).coord_in_range(c@) && old(self).spec_offset(c@) >= old(self).d@.len() ==> r
                == Err::<(), BoardError>(BoardError::OffsetOutOfRange) && *final(self) == *old(
                self,
            ),
            old(self).coord_in_range(c@) && old(self).spec_offset(c@) < old(self).d@.len() ==> {
                &&& r == Ok::<(), BoardError>(())
                &&& final(self).d@ == old(self).d@.update(old(self).spec_offset(c@), v)
                &&& final(self).dims@ == old(self).dims@
                &&& final(self).coeffs@ == old(self).coeffs@
            },
    {
        match self.checked_offset_of(c) {
            Ok(offset) => {
                self.d.set(offset, v);
                Ok(())
            },
            Err(e) => Err(e),
        }
    }
}

} // verus!
