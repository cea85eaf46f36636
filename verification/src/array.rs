//! N-dimensional array storage, views and file format support.
//!
//! Arrays are stored in `NDArray`. A sub-array that fixes leading
//! coordinates can be borrowed as an `NDSlice` or an `NDSliceMut`. All three
//! give access to their elements through `NDData`, and the two that can be
//! written through `NDDataMut`.

pub mod shape;
pub mod ndindex;
pub mod endian;
pub mod text;
pub mod numpy;
pub mod roundtrip;

use vstd::prelude::*;
use vstd::slice::{slice_subrange, slice_to_vec};
use vstd::std_specs::cmp::PartialEqSpec;
use vstd::std_specs::cmp::PartialEqSpecImpl;
use std::ops::Index;
use crate::types::cast::Cast;
use crate::array::ndindex::{lemma_next_ro, NDIndex};
use crate::array::shape::{
    dot, extent, in_bounds, index_at, lemma_dot_is_rank, lemma_in_bounds_positive,
    lemma_mirror_fits, lemma_position_is_rank, lemma_prefix_size_all, lemma_prefix_suffix,
    lemma_rank_ro_bound, lemma_rank_ro_concat, lemma_row_rank_bound, lemma_row_rank_injective,
    lemma_row_rank_surjective, lemma_smaller_shape_fits, lemma_tail_shape, lemma_zero_in_bounds,
    mirror, prefix_size, rank_ro, row_major_strides, row_rank, shape_fits, shape_size, shifted,
    suffix_size, uniform, zero_index,
};

verus! {

/// What an array or a view is to its users: a shape, the strides of its
/// storage, and the storage itself.
pub ghost struct ArrayModel<T> {
    pub shape: Seq<usize>,
    pub strides: Seq<usize>,
    pub data: Seq<T>,
}

impl<T> ArrayModel<T> {
    /// The storage is contiguous and row-major: the strides are those of
    /// the shape, and there is one element for each index of the shape.
    pub open spec fn wf(self) -> bool {
        &&& shape_fits(self.shape)
        &&& self.strides == row_major_strides(self.shape)
        &&& self.data.len() == shape_size(self.shape)
    }

    /// The element at an index.
    pub open spec fn at(self, idx: Seq<usize>) -> T {
        self.data[row_rank(idx, self.shape) as int]
    }

    /// Same shape, and the same element at every index of it.
    pub open spec fn same_as(self, other: ArrayModel<T>) -> bool {
        &&& self.shape == other.shape
        &&& forall|idx: Seq<usize>| #[trigger]
            in_bounds(idx, self.shape) ==> self.at(idx) == other.at(idx)
    }
}

/// Where the element at index `j` of the result of an insertion comes from:
/// below `pos` in dimension `dim` from the array itself, in the next
/// `other.shape[dim]` places from `other`, and after them from the array
/// again.
pub open spec fn insert_source<T>(
    array: ArrayModel<T>,
    dim: int,
    pos: int,
    other: ArrayModel<T>,
    j: Seq<usize>,
) -> T {
    if j[dim] < pos {
        array.at(j)
    } else if j[dim] < pos + other.shape[dim] {
        other.at(j.update(dim, (j[dim] - pos) as usize))
    } else {
        array.at(j.update(dim, (j[dim] - other.shape[dim]) as usize))
    }
}

/// `result` is `array` with `other` inserted at `pos` in dimension `dim`.
pub open spec fn is_insertion<T>(
    array: ArrayModel<T>,
    dim: int,
    pos: int,
    other: ArrayModel<T>,
    result: ArrayModel<T>,
) -> bool {
    &&& result.wf()
    &&& result.shape == array.shape.update(dim, (array.shape[dim] + other.shape[dim]) as usize)
    &&& forall|j: Seq<usize>| #[trigger]
        in_bounds(j, result.shape) ==> result.at(j) == insert_source(array, dim, pos, other, j)
}

/// Where the element at index `j` of the result of a removal comes from.
pub open spec fn remove_source<T>(
    array: ArrayModel<T>,
    dim: int,
    start: int,
    end: int,
    j: Seq<usize>,
) -> T {
    if j[dim] < start {
        array.at(j)
    } else {
        array.at(j.update(dim, (j[dim] + (end - start)) as usize))
    }
}

/// `result` is `array` without the places from `start` up to `end` in
/// dimension `dim`.
pub open spec fn is_removal<T>(
    array: ArrayModel<T>,
    dim: int,
    start: int,
    end: int,
    result: ArrayModel<T>,
) -> bool {
    &&& result.wf()
    &&& result.shape == array.shape.update(dim, (array.shape[dim] - (end - start)) as usize)
    &&& forall|j: Seq<usize>| #[trigger]
        in_bounds(j, result.shape) ==> result.at(j) == remove_source(array, dim, start, end, j)
}

/// `result` is the region of `array` between the corners `start` and `end`.
pub open spec fn is_extraction<T>(
    array: ArrayModel<T>,
    start: Seq<usize>,
    end: Seq<usize>,
    result: ArrayModel<T>,
) -> bool {
    &&& result.wf()
    &&& result.shape == extent(start, end)
    &&& forall|j: Seq<usize>| #[trigger]
        in_bounds(j, result.shape) ==> result.at(j) == array.at(shifted(j, start))
}

/// `result` is `array` with the order of its dimensions reversed.
pub open spec fn is_transposition<T>(array: ArrayModel<T>, result: ArrayModel<T>) -> bool {
    &&& result.wf()
    &&& result.shape == mirror(array.shape)
    &&& forall|j: Seq<usize>| #[trigger]
        in_bounds(j, result.shape) ==> result.at(j) == array.at(mirror(j))
}

/// Equality of two arrays: the same shape, and at every index of it elements
/// that compare equal.
pub open spec fn models_equal<T: PartialEq>(a: ArrayModel<T>, b: ArrayModel<T>) -> bool {
    &&& a.shape == b.shape
    &&& forall|j: Seq<usize>| #[trigger] in_bounds(j, a.shape) ==> a.at(j).eq_spec(&b.at(j))
}

/// Two contiguous row-major arrays of the same shape with the same element
/// at every index are the same array: their strides and their storages are
/// the same too.
pub proof fn lemma_same_array<T>(a: ArrayModel<T>, b: ArrayModel<T>)
    requires
        a.wf(),
        b.wf(),
        a.same_as(b),
    ensures
        a == b,
{
    assert forall|i: int| 0 <= i < a.data.len() implies a.data[i] == b.data[i] by {
        lemma_row_rank_surjective(i as nat, a.shape);
        let idx = index_at(i as nat, a.shape);
        assert(in_bounds(idx, a.shape));
        assert(a.at(idx) == b.at(idx));
    }
    assert(a.data =~= b.data);
}

/// Removing what an insertion added gives the array back: after `other`,
/// which has at least one place in dimension `dim`, is inserted at `pos`,
/// removing the places from `pos` up to `pos` plus the length of `other`
/// in that dimension leaves the array as it was, shape and storage.
pub proof fn lemma_insert_then_remove<T>(
    array: ArrayModel<T>,
    dim: int,
    pos: int,
    other: ArrayModel<T>,
    grown: ArrayModel<T>,
    back: ArrayModel<T>,
)
    requires
        array.wf(),
        other.wf(),
        0 <= dim < array.shape.len(),
        0 <= pos <= array.shape[dim],
        other.shape.len() == array.shape.len(),
        forall|i: int| 0 <= i < array.shape.len() && i != dim ==> other.shape[i] == array.shape[i],
        other.shape[dim] > 0,
        array.shape[dim] + other.shape[dim] <= usize::MAX,
        is_insertion(array, dim, pos, other, grown),
        is_removal(grown, dim, pos, pos + other.shape[dim], back),
    ensures
        back == array,
{
    let n = other.shape[dim] as int;
    assert(back.shape =~= array.shape);
    assert forall|j: Seq<usize>| #[trigger] in_bounds(j, back.shape) implies back.at(j) == array.at(
        j,
    ) by {
        assert(j[dim] < array.shape[dim]);
        if j[dim] < pos {
            assert(in_bounds(j, grown.shape));
        } else {
            let moved = j.update(dim, (j[dim] + n) as usize);
            assert(in_bounds(moved, grown.shape));
            assert(moved.update(dim, (moved[dim] - n) as usize) =~= j);
        }
    }
    lemma_same_array(back, array);
}

/// Inserting what a split returned, at the place of the split, gives the
/// array back.
pub proof fn lemma_split_then_insert<T>(
    array: ArrayModel<T>,
    dim: int,
    pos: int,
    upper: ArrayModel<T>,
    lower: ArrayModel<T>,
    joined: ArrayModel<T>,
)
    requires
        array.wf(),
        0 <= dim < array.shape.len(),
        0 <= pos < array.shape[dim],
        forall|i: int| 0 <= i < array.shape.len() ==> array.shape[i] > 0,
        is_extraction(
            array,
            zero_index(array.shape.len()).update(dim, pos as usize),
            array.shape,
            upper,
        ),
        is_removal(array, dim, pos, array.shape[dim] as int, lower),
        is_insertion(lower, dim, pos, upper, joined),
    ensures
        joined == array,
{
    let start = zero_index(array.shape.len()).update(dim, pos as usize);
    assert(upper.shape =~= array.shape.update(dim, (array.shape[dim] - pos) as usize));
    assert(joined.shape =~= array.shape);
    assert forall|j: Seq<usize>| #[trigger] in_bounds(j, joined.shape) implies joined.at(j)
        == array.at(j) by {
        assert(j[dim] < array.shape[dim]);
        if j[dim] < pos {
            assert(in_bounds(j, lower.shape));
        } else {
            let inner = j.update(dim, (j[dim] - pos) as usize);
            assert(in_bounds(inner, upper.shape));
            assert(shifted(inner, start) =~= j);
        }
    }
    lemma_same_array(joined, array);
}

/// Transposing an array twice gives the array back.
pub proof fn lemma_transpose_twice<T>(
    array: ArrayModel<T>,
    once: ArrayModel<T>,
    twice: ArrayModel<T>,
)
    requires
        array.wf(),
        is_transposition(array, once),
        is_transposition(once, twice),
    ensures
        twice == array,
{
    assert(twice.shape =~= array.shape);
    assert forall|j: Seq<usize>| #[trigger] in_bounds(j, twice.shape) implies twice.at(j)
        == array.at(j) by {
        assert(in_bounds(mirror(j), once.shape));
        assert(mirror(mirror(j)) =~= j);
    }
    lemma_same_array(twice, array);
}

/// Immutable access to an N-dimensional array of `T`.
pub trait NDData<T> {
    /// The array as its contracts speak of it.
    spec fn model(&self) -> ArrayModel<T>;

    /// The length of each dimension. For a matrix the first is the number
    /// of rows and the second the number of columns.
    fn shape(&self) -> (r: &[usize])
        ensures
            r@ == self.model().shape,
    ;

    /// The stride of each dimension.
    fn strides(&self) -> (r: &[usize])
        ensures
            r@ == self.model().strides,
    ;

    /// The underlying storage.
    fn get_data(&self) -> (r: &[T])
        ensures
            r@ == self.model().data,
    ;

    /// The number of dimensions.
    fn dim(&self) -> (r: usize)
        ensures
            r == self.model().shape.len(),
    {
        self.shape().len()
    }

    /// The total number of elements.
    fn size(&self) -> (r: usize)
        requires
            self.model().wf(),
        ensures
            r == shape_size(self.model().shape),
    {
        shape_product(self.shape())
    }

    /// The element at an index, which has one coordinate for each dimension,
    /// each below the length of its dimension.
    fn idx(&self, idx: &[usize]) -> (r: &T)
        requires
            self.model().wf(),
            in_bounds(idx@, self.model().shape),
        ensures
            *r == self.model().at(idx@),
    {
        proof {
            lemma_position_is_rank(idx@, self.model().shape);
            lemma_row_rank_bound(idx@, self.model().shape);
        }
        let pos = idx.to_pos(self.shape(), self.strides());
        &self.get_data()[pos]
    }
}

/// Tells whether two arrays or views have the same shape and, at every
/// index, equal elements. Two arrays of the same size whose dimension lengths
/// differ are not equal.
pub fn arrays_equal<T: PartialEq, A: NDData<T>, B: NDData<T>>(array: &A, other: &B) -> (r: bool)
    requires
        array.model().wf(),
        other.model().wf(),
    ensures
        r ==> array.model().shape == other.model().shape,
        T::obeys_eq_spec() ==> r == models_equal(array.model(), other.model()),
{
    let ghost a = array.model();
    let ghost b = other.model();
    if array.dim() != other.dim() {
        return false;
    }
    let shape = array.shape();
    let mut i: usize = 0;
    while i < shape.len()
        invariant
            i <= shape@.len(),
            shape@ == a.shape,
            array.model() == a,
            other.model() == b,
            a.shape.len() == b.shape.len(),
            forall|k: int| 0 <= k < i ==> a.shape[k] == b.shape[k],
        decreases shape@.len() - i,
    {
        if shape[i] != other.shape()[i] {
            assert(a.shape[i as int] != b.shape[i as int]);
            return false;
        }
        i += 1;
    }
    assert(a.shape =~= b.shape);
    let size = shape_product(shape);
    let mut index = zero_vec(shape.len());
    let mut running = size > 0;
    let ghost mut count: int = 0;
    proof {
        if running {
            lemma_zero_in_bounds(a.shape);
        } else {
            assert forall|j: Seq<usize>| #[trigger] in_bounds(j, a.shape) implies a.at(
                j,
            ).eq_spec(&b.at(j)) by {
                lemma_in_bounds_positive(j, a.shape);
            }
        }
    }
    while running
        invariant
            array.model() == a,
            other.model() == b,
            a.wf(),
            b.wf(),
            a.shape == b.shape,
            shape@ == a.shape,
            size == shape_size(a.shape),
            0 <= count <= size,
            running ==> in_bounds(index@, a.shape) && count == row_rank(index@, a.shape),
            !running ==> count == size,
            T::obeys_eq_spec() ==> forall|j: Seq<usize>|
                (#[trigger] in_bounds(j, a.shape)) && row_rank(j, a.shape) < count ==> a.at(
                    j,
                ).eq_spec(&b.at(j)),
        decreases size - count + (if running { 1int } else { 0int }),
    {
        let ghost here = index@;
        if !(*array.idx(index.as_slice()) == *other.idx(index.as_slice())) {
            assert(in_bounds(here, a.shape));
            assert(T::obeys_eq_spec() ==> !a.at(here).eq_spec(&b.at(here)));
            return false;
        }
        proof {
            lemma_next_ro(here, a.shape);
            if T::obeys_eq_spec() {
                assert forall|j: Seq<usize>|
                    (#[trigger] in_bounds(j, a.shape)) && row_rank(j, a.shape) < count
                        + 1 implies a.at(j).eq_spec(&b.at(j)) by {
                    if row_rank(j, a.shape) == count {
                        lemma_row_rank_injective(j, here, a.shape);
                    }
                }
            }
            count = count + 1;
        }
        index.as_mut_slice().inc_ro(shape);
        if index.as_mut_slice().is_zero() {
            running = false;
        }
    }
    proof {
        if T::obeys_eq_spec() {
            assert forall|j: Seq<usize>| #[trigger] in_bounds(j, a.shape) implies a.at(
                j,
            ).eq_spec(&b.at(j)) by {
                lemma_row_rank_bound(j, a.shape);
            }
        }
    }
    true
}

/// Mutable access to an N-dimensional array of `T`.
pub trait NDDataMut<T: Copy>: NDData<T> {
    /// The underlying storage, for writing. The shape and the strides stay
    /// as they are.
    fn get_data_mut(&mut self) -> (r: &mut [T])
        ensures
            r@ == old(self).model().data,
            final(self).model().shape == old(self).model().shape,
            final(self).model().strides == old(self).model().strides,
            final(self).model().data == final(r)@,
    ;

    /// The element at an index, for writing.
    fn idx_mut(&mut self, idx: &[usize]) -> (r: &mut T)
        requires
            old(self).model().wf(),
            in_bounds(idx@, old(self).model().shape),
        ensures
            *r == old(self).model().at(idx@),
            final(self).model().shape == old(self).model().shape,
            final(self).model().strides == old(self).model().strides,
            final(self).model().data == old(self).model().data.update(
                row_rank(idx@, old(self).model().shape) as int,
                *final(r),
            ),
    {
        proof {
            lemma_position_is_rank(idx@, self.model().shape);
            lemma_row_rank_bound(idx@, self.model().shape);
        }
        let pos = idx.to_pos(self.shape(), self.strides());
        &mut self.get_data_mut()[pos]
    }

    /// Transposes in place data whose dimensions all have the same length:
    /// the element at an index becomes the one that was at the index read
    /// backwards.
    fn transpose(&mut self)
        requires
            old(self).model().wf(),
            uniform(old(self).model().shape),
        ensures
            final(self).model().shape == old(self).model().shape,
            is_transposition(old(self).model(), final(self).model()),
    {
        let shape = slice_to_vec(self.shape());
        let strides = slice_to_vec(self.strides());
        transpose_storage(shape.as_slice(), strides.as_slice(), self.get_data_mut());
    }

    /// Copies the elements of `other`, which has the same shape, into this
    /// array, index by index.
    fn assign<O: NDData<T>>(&mut self, other: &O)
        requires
            old(self).model().wf(),
            other.model().wf(),
            old(self).model().shape == other.model().shape,
        ensures
            final(self).model().wf(),
            final(self).model().same_as(other.model()),
    {
        let shape = slice_to_vec(self.shape());
        let strides = slice_to_vec(self.strides());
        assign_storage(shape.as_slice(), strides.as_slice(), self.get_data_mut(), other);
    }
}

/// The array made of a shape, strides and a storage.
pub open spec fn model_of<T>(shape: Seq<usize>, strides: Seq<usize>, data: Seq<T>) -> ArrayModel<
    T,
> {
    ArrayModel { shape, strides, data }
}

/// Transposes in place a storage whose shape has dimensions of one length.
pub fn transpose_storage<T: Copy>(shape: &[usize], strides: &[usize], data: &mut [T])
    requires
        model_of(shape@, strides@, old(data)@).wf(),
        uniform(shape@),
    ensures
        is_transposition(
            model_of(shape@, strides@, old(data)@),
            model_of(shape@, strides@, final(data)@),
        ),
{
    let ghost before = model_of(shape@, strides@, data@);
    assert(mirror(before.shape) =~= before.shape);
    let copy = NDArray::<T>::from_slice(shape, data);
    let size = copy.size();
    let mut index = zero_vec(shape.len());
    let mut running = size > 0;
    let ghost mut count: int = 0;
    proof {
        if running {
            lemma_zero_in_bounds(before.shape);
        }
    }
    while running
        invariant
            before.wf(),
            uniform(before.shape),
            mirror(before.shape) == before.shape,
            shape@ == before.shape,
            strides@ == before.strides,
            data@.len() == before.data.len(),
            copy.model() == before,
            size == shape_size(before.shape),
            0 <= count <= size,
            running ==> in_bounds(index@, before.shape) && count == row_rank(index@, before.shape),
            !running ==> count == size,
            forall|j: Seq<usize>|
                (#[trigger] in_bounds(j, before.shape)) && row_rank(j, before.shape) < count
                    ==> data@[row_rank(j, before.shape) as int] == before.at(mirror(j)),
        decreases size - count + (if running { 1int } else { 0int }),
    {
        let ghost here = index@;
        let ghost stored = data@;
        let revidx = reversed(index.as_slice());
        assert(in_bounds(revidx@, before.shape)) by {
            assert forall|k: int| 0 <= k < revidx@.len() implies #[trigger] revidx@[k]
                < before.shape[k] by {
                assert(here[here.len() - 1 - k] < before.shape[here.len() - 1 - k]);
                assert(before.shape[here.len() - 1 - k] == before.shape[0]);
                assert(before.shape[k] == before.shape[0]);
            }
        }
        let v: T = *copy.idx(revidx.as_slice());
        proof {
            lemma_position_is_rank(here, before.shape);
            lemma_row_rank_bound(here, before.shape);
        }
        let pos = index.as_slice().to_pos(shape, strides);
        data[pos] = v;
        proof {
            lemma_next_ro(here, before.shape);
            assert(data@ == stored.update(count, v));
            assert forall|j: Seq<usize>|
                (#[trigger] in_bounds(j, before.shape)) && row_rank(j, before.shape) < count
                    + 1 implies data@[row_rank(j, before.shape) as int] == before.at(mirror(j)) by {
                if row_rank(j, before.shape) == count {
                    lemma_row_rank_injective(j, here, before.shape);
                }
            }
            count = count + 1;
        }
        index.as_mut_slice().inc_ro(shape);
        if index.as_mut_slice().is_zero() {
            running = false;
        }
    }
    proof {
        let after = model_of(shape@, strides@, data@);
        assert forall|j: Seq<usize>| #[trigger] in_bounds(j, after.shape) implies after.at(j)
            == before.at(mirror(j)) by {
            lemma_row_rank_bound(j, before.shape);
        }
    }
}

/// Copies the elements of `other`, index by index, into a storage of the
/// same shape.
pub fn assign_storage<T: Copy, O: NDData<T>>(
    shape: &[usize],
    strides: &[usize],
    data: &mut [T],
    other: &O,
)
    requires
        model_of(shape@, strides@, old(data)@).wf(),
        other.model().wf(),
        other.model().shape == shape@,
    ensures
        model_of(shape@, strides@, final(data)@).wf(),
        model_of(shape@, strides@, final(data)@).same_as(other.model()),
{
    let ghost before = model_of(shape@, strides@, data@);
    let ghost from = other.model();
    let size = other.size();
    let mut index = zero_vec(shape.len());
    let mut running = size > 0;
    let ghost mut count: int = 0;
    proof {
        if running {
            lemma_zero_in_bounds(before.shape);
        }
    }
    while running
        invariant
            before.wf(),
            from.wf(),
            from.shape == before.shape,
            other.model() == from,
            shape@ == before.shape,
            strides@ == before.strides,
            data@.len() == before.data.len(),
            size == shape_size(before.shape),
            0 <= count <= size,
            running ==> in_bounds(index@, before.shape) && count == row_rank(index@, before.shape),
            !running ==> count == size,
            forall|j: Seq<usize>|
                (#[trigger] in_bounds(j, before.shape)) && row_rank(j, before.shape) < count
                    ==> data@[row_rank(j, before.shape) as int] == from.at(j),
        decreases size - count + (if running { 1int } else { 0int }),
    {
        let ghost here = index@;
        let ghost stored = data@;
        let v: T = *other.idx(index.as_slice());
        proof {
            lemma_position_is_rank(here, before.shape);
            lemma_row_rank_bound(here, before.shape);
        }
        let pos = index.as_slice().to_pos(shape, strides);
        data[pos] = v;
        proof {
            lemma_next_ro(here, before.shape);
            assert(data@ == stored.update(count, v));
            assert forall|j: Seq<usize>|
                (#[trigger] in_bounds(j, before.shape)) && row_rank(j, before.shape) < count
                    + 1 implies data@[row_rank(j, before.shape) as int] == from.at(j) by {
                if row_rank(j, before.shape) == count {
                    lemma_row_rank_injective(j, here, before.shape);
                }
            }
            count = count + 1;
        }
        index.as_mut_slice().inc_ro(shape);
        if index.as_mut_slice().is_zero() {
            running = false;
        }
    }
    proof {
        let after = model_of(shape@, strides@, data@);
        assert forall|j: Seq<usize>| #[trigger] in_bounds(j, after.shape) implies after.at(j)
            == from.at(j) by {
            lemma_row_rank_bound(j, before.shape);
        }
    }
}

/// An owned N-dimensional array, stored in row-major order.
pub struct NDArray<T> {
    shape: Vec<usize>,
    strides: Vec<usize>,
    data: Vec<T>,
}

impl<T> NDData<T> for NDArray<T> {
    closed spec fn model(&self) -> ArrayModel<T> {
        ArrayModel { shape: self.shape@, strides: self.strides@, data: self.data@ }
    }

    fn shape(&self) -> (r: &[usize]) {
        self.shape.as_slice()
    }

    fn strides(&self) -> (r: &[usize]) {
        self.strides.as_slice()
    }

    fn get_data(&self) -> (r: &[T]) {
        self.data.as_slice()
    }
}

impl<T: Copy> NDDataMut<T> for NDArray<T> {
    fn get_data_mut(&mut self) -> (r: &mut [T]) {
        self.data.as_mut_slice()
    }
}

/// Tells whether an index has the rank of a shape and every coordinate
/// below the length of its dimension.
pub fn is_in_bounds(idx: &[usize], shape: &[usize]) -> (r: bool)
    ensures
        r == in_bounds(idx@, shape@),
{
    if idx.len() != shape.len() {
        return false;
    }
    let mut i: usize = 0;
    while i < idx.len()
        invariant
            i <= idx@.len(),
            idx@.len() == shape@.len(),
            forall|k: int| 0 <= k < i ==> #[trigger] idx@[k] < shape@[k],
        decreases idx@.len() - i,
    {
        if idx[i] >= shape[i] {
            return false;
        }
        i += 1;
    }
    true
}

/// The product of the dimension lengths of a shape.
pub fn shape_product(shape: &[usize]) -> (size: usize)
    requires
        shape_fits(shape@),
    ensures
        size == shape_size(shape@),
{
    let mut size: usize = 1;
    let mut i: usize = shape.len();
    while i > 0
        invariant
            i <= shape@.len(),
            shape_fits(shape@),
            size == suffix_size(shape@, i as int),
        decreases i,
    {
        i -= 1;
        assert(suffix_size(shape@, i as int) <= usize::MAX);
        assert(suffix_size(shape@, i as int) == shape@[i as int] * size);
        size = shape[i] * size;
    }
    size
}

/// Tells whether the strides and the size of a shape can be held in a
/// `usize`, so that an array of this shape can be addressed.
pub fn shape_is_addressable(shape: &[usize]) -> (r: bool)
    ensures
        r == shape_fits(shape@),
{
    let mut size: usize = 1;
    let mut i: usize = shape.len();
    while i > 0
        invariant
            i <= shape@.len(),
            size == suffix_size(shape@, i as int),
            forall|k: int| i <= k <= shape@.len() ==> #[trigger] suffix_size(shape@, k) <= usize::MAX,
        decreases i,
    {
        i -= 1;
        assert(suffix_size(shape@, i as int) == shape@[i as int] * size);
        match shape[i].checked_mul(size) {
            Some(s) => {
                size = s;
            },
            None => {
                assert(suffix_size(shape@, i as int) > usize::MAX);
                return false;
            },
        }
    }
    true
}

/// An index of the given rank with every coordinate 0.
pub fn zero_vec(rank: usize) -> (idx: Vec<usize>)
    ensures
        idx@ == zero_index(rank as nat),
{
    let mut idx: Vec<usize> = Vec::new();
    while idx.len() < rank
        invariant
            idx@.len() <= rank,
            forall|i: int| 0 <= i < idx@.len() ==> idx@[i] == 0,
        decreases rank - idx@.len(),
    {
        idx.push(0);
    }
    assert(idx@ =~= zero_index(rank as nat));
    idx
}

/// The index `index` moved by `start`, inside the region that ends at `end`.
fn shift_index(index: &[usize], start: &[usize], end: &[usize]) -> (moved: Vec<usize>)
    requires
        index@.len() == start@.len(),
        end@.len() == start@.len(),
        forall|i: int|
            0 <= i < index@.len() ==> start@[i] <= end@[i] && index@[i] < end@[i] - start@[i],
    ensures
        moved@ == shifted(index@, start@),
{
    let mut moved: Vec<usize> = Vec::new();
    while moved.len() < index.len()
        invariant
            moved@.len() <= index@.len(),
            index@.len() == start@.len(),
            end@.len() == start@.len(),
            forall|i: int|
                0 <= i < index@.len() ==> start@[i] <= end@[i] && index@[i] < end@[i] - start@[i],
            forall|i: int| 0 <= i < moved@.len() ==> moved@[i] == index@[i] + start@[i],
        decreases index@.len() - moved@.len(),
    {
        let i = moved.len();
        assert(start@[i as int] <= end@[i as int] && index@[i as int] < end@[i as int]
            - start@[i as int]);
        moved.push(index[i] + start[i]);
    }
    assert(moved@ =~= shifted(index@, start@));
    moved
}

/// The coordinates read from the last one to the first.
fn reversed(index: &[usize]) -> (back: Vec<usize>)
    ensures
        back@ == mirror(index@),
{
    let mut back: Vec<usize> = Vec::new();
    while back.len() < index.len()
        invariant
            back@.len() <= index@.len(),
            forall|i: int| 0 <= i < back@.len() ==> back@[i] == index@[index@.len() - 1 - i],
        decreases index@.len() - back@.len(),
    {
        back.push(index[index.len() - 1 - back.len()]);
    }
    assert(back@ =~= mirror(index@));
    back
}

impl<T: Copy> NDArray<T> {
    /// The strides of a contiguous row-major array of the given shape.
    pub fn compute_strides(shape: &[usize]) -> (strides: Vec<usize>)
        requires
            shape_fits(shape@),
        ensures
            strides@ == row_major_strides(shape@),
    {
        let mut strides = zero_vec(shape.len());
        let mut size: usize = 1;
        let mut i: usize = shape.len();
        while i > 0
            invariant
                i <= shape@.len(),
                strides@.len() == shape@.len(),
                shape_fits(shape@),
                size == suffix_size(shape@, i as int),
                forall|k: int| i <= k < shape@.len() ==> strides@[k] == suffix_size(shape@, k + 1),
            decreases i,
        {
            i -= 1;
            strides[i] = size;
            assert(suffix_size(shape@, i as int) <= usize::MAX);
            assert(suffix_size(shape@, i as int) == shape@[i as int] * size);
            size = shape[i] * size;
        }
        assert(strides@ =~= row_major_strides(shape@));
        strides
    }

    /// A new array of the given shape with every element equal to `v`.
    pub fn new(shape: &[usize], v: T) -> (array: NDArray<T>)
        requires
            shape_fits(shape@),
        ensures
            array.model().wf(),
            array.model().shape == shape@,
            array.model().data == Seq::new(shape_size(shape@), |i: int| v),
            forall|idx: Seq<usize>| #[trigger]
                in_bounds(idx, shape@) ==> array.model().at(idx) == v,
    {
        let size = shape_product(shape);
        let mut data: Vec<T> = Vec::new();
        while data.len() < size
            invariant
                data@.len() <= size,
                forall|i: int| 0 <= i < data@.len() ==> data@[i] == v,
            decreases size - data@.len(),
        {
            data.push(v);
        }
        assert(data@ =~= Seq::new(shape_size(shape@), |i: int| v));
        let array = NDArray {
            shape: slice_to_vec(shape),
            strides: NDArray::<T>::compute_strides(shape),
            data,
        };
        assert forall|idx: Seq<usize>| #[trigger] in_bounds(idx, shape@) implies array.model().at(
            idx,
        ) == v by {
            lemma_row_rank_bound(idx, shape@);
        }
        array
    }

    /// A new array that is a copy of an array or a view.
    pub fn copy<R: NDData<T>>(data: &R) -> (array: NDArray<T>)
        ensures
            array.model() == data.model(),
    {
        NDArray {
            shape: slice_to_vec(data.shape()),
            strides: slice_to_vec(data.strides()),
            data: slice_to_vec(data.get_data()),
        }
    }

    /// A new array of the given shape whose storage is a copy of `data`,
    /// taken in row-major order. The size of the shape is the length of
    /// `data`.
    pub fn from_slice(shape: &[usize], data: &[T]) -> (array: NDArray<T>)
        requires
            shape_fits(shape@),
            shape_size(shape@) == data@.len(),
        ensures
            array.model().wf(),
            array.model().shape == shape@,
            array.model().data == data@,
    {
        NDArray {
            shape: slice_to_vec(shape),
            strides: NDArray::<T>::compute_strides(shape),
            data: slice_to_vec(data),
        }
    }

    /// Inserts `other` at position `pos` of dimension `dim`. `other` has the
    /// rank of this array and its shape in every dimension but `dim`.
    pub fn insert<O: NDData<T>>(&mut self, dim: usize, pos: usize, other: &O)
        requires
            old(self).model().wf(),
            other.model().wf(),
            dim < old(self).model().shape.len(),
            pos <= old(self).model().shape[dim as int],
            other.model().shape.len() == old(self).model().shape.len(),
            forall|i: int|
                0 <= i < old(self).model().shape.len() && i != dim ==> other.model().shape[i]
                    == old(self).model().shape[i],
            old(self).model().shape[dim as int] + other.model().shape[dim as int] <= usize::MAX,
            shape_fits(
                old(self).model().shape.update(
                    dim as int,
                    (old(self).model().shape[dim as int] + other.model().shape[dim as int]) as usize,
                ),
            ),
        ensures
            is_insertion(
                old(self).model(),
                dim as int,
                pos as int,
                other.model(),
                final(self).model(),
            ),
    {
        let ghost before = self.model();
        let ghost added = other.model();
        let n: usize = other.shape()[dim];
        let mut shape = slice_to_vec(self.shape());
        shape[dim] = shape[dim] + n;
        let ghost target = shape@;
        let strides = NDArray::<T>::compute_strides(shape.as_slice());
        let size = shape_product(shape.as_slice());
        let mut data: Vec<T> = Vec::new();
        let mut index = zero_vec(shape.len());
        let mut running = size > 0;
        proof {
            if running {
                lemma_zero_in_bounds(target);
            }
        }
        while running
            invariant
                self.model() == before,
                other.model() == added,
                before.wf(),
                added.wf(),
                dim < before.shape.len(),
                pos <= before.shape[dim as int],
                n == added.shape[dim as int],
                added.shape.len() == before.shape.len(),
                forall|i: int|
                    0 <= i < before.shape.len() && i != dim ==> added.shape[i] == before.shape[i],
                target == before.shape.update(dim as int, (before.shape[dim as int] + n) as usize),
                before.shape[dim as int] + n <= usize::MAX,
                shape@ == target,
                size == shape_size(target),
                data@.len() <= size,
                running ==> in_bounds(index@, target) && data@.len() == row_rank(index@, target),
                !running ==> data@.len() == size,
                forall|j: Seq<usize>|
                    (#[trigger] in_bounds(j, target)) && row_rank(j, target) < data@.len()
                        ==> data@[row_rank(j, target) as int] == insert_source(
                        before,
                        dim as int,
                        pos as int,
                        added,
                        j,
                    ),
            decreases size - data@.len() + (if running { 1int } else { 0int }),
        {
            let ghost here = index@;
            let ghost filled = data@;
            let c: usize = index[dim];
            assert(here[dim as int] < target[dim as int]);
            let v: T = if c < pos {
                assert(in_bounds(here, before.shape));
                *self.idx(index.as_slice())
            } else if c < pos + n {
                index[dim] = c - pos;
                assert(in_bounds(index@, added.shape));
                let v = *other.idx(index.as_slice());
                index[dim] = c;
                v
            } else {
                index[dim] = c - n;
                assert(in_bounds(index@, before.shape));
                let v = *self.idx(index.as_slice());
                index[dim] = c;
                v
            };
            assert(index@ =~= here);
            assert(v == insert_source(before, dim as int, pos as int, added, here));
            data.push(v);
            proof {
                lemma_next_ro(here, target);
                assert forall|j: Seq<usize>|
                    (#[trigger] in_bounds(j, target)) && row_rank(j, target)
                        < data@.len() implies data@[row_rank(j, target) as int] == insert_source(
                    before,
                    dim as int,
                    pos as int,
                    added,
                    j,
                ) by {
                    if row_rank(j, target) == filled.len() {
                        lemma_row_rank_injective(j, here, target);
                    }
                }
            }
            index.as_mut_slice().inc_ro(shape.as_slice());
            if index.as_mut_slice().is_zero() {
                running = false;
            }
        }
        self.shape = shape;
        self.strides = strides;
        self.data = data;
        proof {
            assert forall|j: Seq<usize>| #[trigger] in_bounds(j, target) implies self.model().at(j)
                == insert_source(before, dim as int, pos as int, added, j) by {
                lemma_row_rank_bound(j, target);
            }
        }
    }

    /// The region between the corners `start` (included) and `end`
    /// (excluded), as a new array.
    pub fn extract(&self, start: &[usize], end: &[usize]) -> (region: NDArray<T>)
        requires
            self.model().wf(),
            start@.len() == self.model().shape.len(),
            end@.len() == self.model().shape.len(),
            forall|i: int|
                0 <= i < start@.len() ==> start@[i] < end@[i] && end@[i] <= self.model().shape[i],
        ensures
            is_extraction(self.model(), start@, end@, region.model()),
    {
        let ghost source = self.model();
        let mut shape = slice_to_vec(end);
        let mut i: usize = 0;
        while i < shape.len()
            invariant
                i <= shape@.len(),
                shape@.len() == end@.len(),
                start@.len() == end@.len(),
                forall|k: int| 0 <= k < start@.len() ==> start@[k] < end@[k],
                forall|k: int| 0 <= k < i ==> shape@[k] == end@[k] - start@[k],
                forall|k: int| i <= k < shape@.len() ==> shape@[k] == end@[k],
            decreases shape@.len() - i,
        {
            assert(start@[i as int] < end@[i as int]);
            shape[i] = shape[i] - start[i];
            i += 1;
        }
        let ghost target = shape@;
        proof {
            assert(target =~= extent(start@, end@));
            assert forall|k: int| 0 <= k < target.len() implies #[trigger] target[k]
                <= source.shape[k] by {
                assert(start@[k] < end@[k] && end@[k] <= source.shape[k]);
            }
            lemma_smaller_shape_fits(target, source.shape);
        }
        let strides = NDArray::<T>::compute_strides(shape.as_slice());
        let size = shape_product(shape.as_slice());
        let mut data: Vec<T> = Vec::new();
        let mut index = zero_vec(shape.len());
        let mut running = size > 0;
        proof {
            if running {
                lemma_zero_in_bounds(target);
            }
        }
        while running
            invariant
                self.model() == source,
                source.wf(),
                start@.len() == source.shape.len(),
                end@.len() == source.shape.len(),
                forall|i: int|
                    0 <= i < start@.len() ==> start@[i] < end@[i] && end@[i] <= source.shape[i],
                target == extent(start@, end@),
                shape@ == target,
                size == shape_size(target),
                data@.len() <= size,
                running ==> in_bounds(index@, target) && data@.len() == row_rank(index@, target),
                !running ==> data@.len() == size,
                forall|j: Seq<usize>|
                    (#[trigger] in_bounds(j, target)) && row_rank(j, target) < data@.len()
                        ==> data@[row_rank(j, target) as int] == source.at(shifted(j, start@)),
            decreases size - data@.len() + (if running { 1int } else { 0int }),
        {
            let ghost here = index@;
            let ghost filled = data@;
            assert forall|k: int| 0 <= k < here.len() implies start@[k] <= end@[k] && here[k]
                < end@[k] - start@[k] by {
                assert(here[k] < target[k]);
                assert(start@[k] < end@[k]);
            }
            let self_index = shift_index(index.as_slice(), start, end);
            assert(in_bounds(self_index@, source.shape)) by {
                assert forall|k: int| 0 <= k < self_index@.len() implies #[trigger] self_index@[k]
                    < source.shape[k] by {
                    assert(here[k] < target[k]);
                    assert(start@[k] < end@[k] && end@[k] <= source.shape[k]);
                }
            }
            let v: T = *self.idx(self_index.as_slice());
            data.push(v);
            proof {
                lemma_next_ro(here, target);
                assert forall|j: Seq<usize>|
                    (#[trigger] in_bounds(j, target)) && row_rank(j, target)
                        < data@.len() implies data@[row_rank(j, target) as int] == source.at(
                    shifted(j, start@),
                ) by {
                    if row_rank(j, target) == filled.len() {
                        lemma_row_rank_injective(j, here, target);
                    }
                }
            }
            index.as_mut_slice().inc_ro(shape.as_slice());
            if index.as_mut_slice().is_zero() {
                running = false;
            }
        }
        let region = NDArray { shape, strides, data };
        proof {
            assert forall|j: Seq<usize>| #[trigger] in_bounds(j, target) implies region.model().at(
                j,
            ) == source.at(shifted(j, start@)) by {
                lemma_row_rank_bound(j, target);
            }
        }
        region
    }

    /// Removes the places from `start` (included) to `end` (excluded) of
    /// dimension `dim`: the opposite of an insertion.
    pub fn remove(&mut self, dim: usize, start: usize, end: usize)
        requires
            old(self).model().wf(),
            dim < old(self).model().shape.len(),
            start < end,
            end <= old(self).model().shape[dim as int],
        ensures
            is_removal(old(self).model(), dim as int, start as int, end as int, final(self).model()),
    {
        let ghost before = self.model();
        let mut shape = slice_to_vec(self.shape());
        shape[dim] = shape[dim] - (end - start);
        let ghost target = shape@;
        proof {
            lemma_smaller_shape_fits(target, before.shape);
        }
        let strides = NDArray::<T>::compute_strides(shape.as_slice());
        let size = shape_product(shape.as_slice());
        let mut data: Vec<T> = Vec::new();
        let mut index = zero_vec(shape.len());
        let mut running = size > 0;
        proof {
            if running {
                lemma_zero_in_bounds(target);
            }
        }
        while running
            invariant
                self.model() == before,
                before.wf(),
                dim < before.shape.len(),
                start < end,
                end <= before.shape[dim as int],
                target == before.shape.update(
                    dim as int,
                    (before.shape[dim as int] - (end - start)) as usize,
                ),
                shape@ == target,
                size == shape_size(target),
                data@.len() <= size,
                running ==> in_bounds(index@, target) && data@.len() == row_rank(index@, target),
                !running ==> data@.len() == size,
                forall|j: Seq<usize>|
                    (#[trigger] in_bounds(j, target)) && row_rank(j, target) < data@.len()
                        ==> data@[row_rank(j, target) as int] == remove_source(
                        before,
                        dim as int,
                        start as int,
                        end as int,
                        j,
                    ),
            decreases size - data@.len() + (if running { 1int } else { 0int }),
        {
            let ghost here = index@;
            let ghost filled = data@;
            let c: usize = index[dim];
            assert(here[dim as int] < target[dim as int]);
            let v: T = if c < start {
                assert(in_bounds(here, before.shape));
                *self.idx(index.as_slice())
            } else {
                index[dim] = c + (end - start);
                assert(in_bounds(index@, before.shape));
                let v = *self.idx(index.as_slice());
                index[dim] = c;
                v
            };
            assert(index@ =~= here);
            data.push(v);
            proof {
                lemma_next_ro(here, target);
                assert forall|j: Seq<usize>|
                    (#[trigger] in_bounds(j, target)) && row_rank(j, target)
                        < data@.len() implies data@[row_rank(j, target) as int] == remove_source(
                    before,
                    dim as int,
                    start as int,
                    end as int,
                    j,
                ) by {
                    if row_rank(j, target) == filled.len() {
                        lemma_row_rank_injective(j, here, target);
                    }
                }
            }
            index.as_mut_slice().inc_ro(shape.as_slice());
            if index.as_mut_slice().is_zero() {
                running = false;
            }
        }
        self.shape = shape;
        self.strides = strides;
        self.data = data;
        proof {
            assert forall|j: Seq<usize>| #[trigger] in_bounds(j, target) implies self.model().at(j)
                == remove_source(before, dim as int, start as int, end as int, j) by {
                lemma_row_rank_bound(j, target);
            }
        }
    }

    /// Splits the array at position `pos` of dimension `dim`: the array
    /// keeps the places below `pos` and the places from `pos` on are
    /// returned.
    pub fn split(&mut self, dim: usize, pos: usize) -> (upper: NDArray<T>)
        requires
            old(self).model().wf(),
            dim < old(self).model().shape.len(),
            pos < old(self).model().shape[dim as int],
            forall|i: int| 0 <= i < old(self).model().shape.len() ==> old(self).model().shape[i] > 0,
        ensures
            is_extraction(
                old(self).model(),
                zero_index(old(self).model().shape.len()).update(dim as int, pos),
                old(self).model().shape,
                upper.model(),
            ),
            is_removal(
                old(self).model(),
                dim as int,
                pos as int,
                old(self).model().shape[dim as int] as int,
                final(self).model(),
            ),
    {
        let end = slice_to_vec(self.shape());
        let mut start = zero_vec(self.dim());
        start[dim] = pos;
        let upper = self.extract(start.as_slice(), end.as_slice());
        self.remove(dim, pos, end[dim]);
        upper
    }

    /// Reverses the order of the dimensions: the element at an index of the
    /// result is the one that was at the index read backwards. Of an array
    /// without elements the reversed shape has to be addressable.
    pub fn transpose(&mut self)
        requires
            old(self).model().wf(),
            shape_size(old(self).model().shape) == 0 ==> shape_fits(
                mirror(old(self).model().shape),
            ),
        ensures
            is_transposition(old(self).model(), final(self).model()),
    {
        let ghost before = self.model();
        proof {
            if shape_size(before.shape) > 0 {
                lemma_mirror_fits(before.shape);
            }
        }
        let shape = reversed(self.shape());
        let ghost target = shape@;
        let strides = NDArray::<T>::compute_strides(shape.as_slice());
        let size = shape_product(shape.as_slice());
        let mut data: Vec<T> = Vec::new();
        let mut index = zero_vec(shape.len());
        let mut running = size > 0;
        proof {
            if running {
                lemma_zero_in_bounds(target);
            }
        }
        while running
            invariant
                self.model() == before,
                before.wf(),
                target == mirror(before.shape),
                shape@ == target,
                size == shape_size(target),
                data@.len() <= size,
                running ==> in_bounds(index@, target) && data@.len() == row_rank(index@, target),
                !running ==> data@.len() == size,
                forall|j: Seq<usize>|
                    (#[trigger] in_bounds(j, target)) && row_rank(j, target) < data@.len()
                        ==> data@[row_rank(j, target) as int] == before.at(mirror(j)),
            decreases size - data@.len() + (if running { 1int } else { 0int }),
        {
            let ghost here = index@;
            let ghost filled = data@;
            let revidx = reversed(index.as_slice());
            assert(in_bounds(revidx@, before.shape)) by {
                assert forall|k: int| 0 <= k < revidx@.len() implies #[trigger] revidx@[k]
                    < before.shape[k] by {
                    assert(here[here.len() - 1 - k] < target[here.len() - 1 - k]);
                }
            }
            let v: T = *self.idx(revidx.as_slice());
            data.push(v);
            proof {
                lemma_next_ro(here, target);
                assert forall|j: Seq<usize>|
                    (#[trigger] in_bounds(j, target)) && row_rank(j, target)
                        < data@.len() implies data@[row_rank(j, target) as int] == before.at(
                    mirror(j),
                ) by {
                    if row_rank(j, target) == filled.len() {
                        lemma_row_rank_injective(j, here, target);
                    }
                }
            }
            index.as_mut_slice().inc_ro(shape.as_slice());
            if index.as_mut_slice().is_zero() {
                running = false;
            }
        }
        self.shape = shape;
        self.strides = strides;
        self.data = data;
        proof {
            assert forall|j: Seq<usize>| #[trigger] in_bounds(j, target) implies self.model().at(j)
                == before.at(mirror(j)) by {
                lemma_row_rank_bound(j, target);
            }
        }
    }

    /// A new array of the same shape whose elements are those of `data`,
    /// each cast into `T`.
    pub fn cast<U: Copy + Cast<T>, R: NDData<U>>(data: &R) -> (array: NDArray<T>)
        ensures
            array.model().shape == data.model().shape,
            array.model().strides == data.model().strides,
            array.model().data.len() == data.model().data.len(),
            forall|i: int|
                0 <= i < data.model().data.len() ==> #[trigger] array.model().data[i]
                    == data.model().data[i].cast_spec(),
    {
        let source = data.get_data();
        let mut alloc: Vec<T> = Vec::new();
        let mut i: usize = 0;
        while i < source.len()
            invariant
                i <= source@.len(),
                alloc@.len() == i,
                forall|k: int| 0 <= k < i ==> #[trigger] alloc@[k] == source@[k].cast_spec(),
            decreases source@.len() - i,
        {
            alloc.push(source[i].cast());
            i += 1;
        }
        NDArray {
            shape: slice_to_vec(data.shape()),
            strides: slice_to_vec(data.strides()),
            data: alloc,
        }
    }

    /// Gives the array a new shape of the same size. The storage stays as
    /// it is.
    pub fn reshape(&mut self, new_shape: &[usize])
        requires
            old(self).model().wf(),
            shape_fits(new_shape@),
            shape_size(new_shape@) == shape_size(old(self).model().shape),
        ensures
            final(self).model().wf(),
            final(self).model().shape == new_shape@,
            final(self).model().data == old(self).model().data,
    {
        self.shape = slice_to_vec(new_shape);
        self.strides = NDArray::<T>::compute_strides(new_shape);
    }
}

/// A prefix index: fewer coordinates than the shape has dimensions, each
/// below the length of its dimension.
pub open spec fn is_prefix_index(prefix: Seq<usize>, shape: Seq<usize>) -> bool {
    &&& prefix.len() < shape.len()
    &&& forall|i: int| 0 <= i < prefix.len() ==> #[trigger] prefix[i] < shape[i]
}

/// Where in the storage the sub-array with the leading coordinates `prefix`
/// begins.
pub open spec fn window_start(strides: Seq<usize>, prefix: Seq<usize>) -> int {
    dot(prefix, strides, prefix.len() as int) as int
}

/// The sub-array of `array` with the leading coordinates `prefix`: the rest
/// of the shape and of the strides, and the contiguous part of the storage
/// that holds its elements.
pub open spec fn window_of<T>(array: ArrayModel<T>, prefix: Seq<usize>) -> ArrayModel<T> {
    let k = prefix.len() as int;
    let start = window_start(array.strides, prefix);
    ArrayModel {
        shape: array.shape.skip(k),
        strides: array.strides.skip(k),
        data: array.data.subrange(start, start + suffix_size(array.shape, k)),
    }
}

/// The storage of `array` with the part that holds the sub-array at `prefix`
/// replaced by `inner`.
pub open spec fn with_window<T>(array: ArrayModel<T>, prefix: Seq<usize>, inner: Seq<T>) -> Seq<
    T,
> {
    let k = prefix.len() as int;
    let start = window_start(array.strides, prefix);
    let end = start + suffix_size(array.shape, k);
    array.data.subrange(0, start) + inner + array.data.subrange(end, array.data.len() as int)
}

/// The sub-array at a prefix index lies inside the storage, is itself a
/// contiguous row-major array, and its element at an index is the element of
/// the array at the prefix followed by that index.
pub proof fn lemma_window<T>(array: ArrayModel<T>, prefix: Seq<usize>)
    requires
        array.wf(),
        is_prefix_index(prefix, array.shape),
    ensures
        0 <= window_start(array.strides, prefix),
        window_start(array.strides, prefix) + suffix_size(array.shape, prefix.len() as int)
            <= array.data.len(),
        window_of(array, prefix).wf(),
        forall|j: Seq<usize>| #[trigger]
            in_bounds(j, array.shape.skip(prefix.len() as int)) ==> in_bounds(
                prefix + j,
                array.shape,
            ) && row_rank(prefix + j, array.shape) == window_start(array.strides, prefix)
                + row_rank(j, array.shape.skip(prefix.len() as int)) && window_of(
                array,
                prefix,
            ).at(j) == array.at(prefix + j),
{
    let k = prefix.len() as int;
    let shape = array.shape;
    let tail = shape.skip(k);
    let r = rank_ro(prefix, shape, k) as int;
    let s = suffix_size(shape, k) as int;
    let p = prefix_size(shape, k) as int;
    let start = window_start(array.strides, prefix);
    lemma_dot_is_rank(prefix, shape, k);
    lemma_rank_ro_bound(prefix, shape, k);
    lemma_prefix_suffix(shape, k);
    assert(start == r * s);
    assert(r * s + s <= p * s) by (nonlinear_arith)
        requires
            0 <= r < p,
            0 <= s,
    ;
    lemma_tail_shape(shape, k);
    lemma_prefix_size_all(tail);
    assert forall|j: Seq<usize>| #[trigger] in_bounds(j, tail) implies in_bounds(prefix + j, shape)
        && row_rank(prefix + j, shape) == start + row_rank(j, tail) && window_of(array, prefix).at(
        j,
    ) == array.at(prefix + j) by {
        let whole = prefix + j;
        assert forall|i: int| 0 <= i < whole.len() implies #[trigger] whole[i] < shape[i] by {
            if i < k {
                assert(whole[i] == prefix[i]);
            } else {
                assert(whole[i] == j[i - k]);
                assert(j[i - k] < tail[i - k]);
            }
        }
        lemma_rank_ro_concat(prefix, j, shape, tail.len() as int);
        lemma_row_rank_bound(j, tail);
    }
}

/// The bounds in the storage of the sub-array at a prefix index.
fn slice_window(shape: &[usize], strides: &[usize], len: usize, idx: &[usize]) -> (w: (
    usize,
    usize,
))
    requires
        shape_fits(shape@),
        strides@ == row_major_strides(shape@),
        len == shape_size(shape@),
        is_prefix_index(idx@, shape@),
    ensures
        w.0 == window_start(strides@, idx@),
        w.1 == w.0 + suffix_size(shape@, idx@.len() as int),
        w.1 <= len,
{
    let ghost model = ArrayModel::<u8> {
        shape: shape@,
        strides: strides@,
        data: Seq::new(len as nat, |i: int| 0u8),
    };
    proof {
        lemma_window(model, idx@);
    }
    let start: usize = idx.to_pos(shape, strides);
    let width: usize = if idx.len() == 0 {
        len
    } else {
        strides[idx.len() - 1]
    };
    (start, start + width)
}

/// An immutable borrow of a sub-array of an N-dimensional array.
pub struct NDSlice<'a, T> {
    shape: &'a [usize],
    strides: &'a [usize],
    data: &'a [T],
}

/// A mutable borrow of a sub-array of an N-dimensional array.
pub struct NDSliceMut<'a, T> {
    /// The length of each dimension of the view.
    pub shape: &'a [usize],
    /// The stride of each dimension of the view.
    pub strides: &'a [usize],
    /// The part of the storage that the view borrows.
    pub data: &'a mut [T],
}

/// N-dimensional data of which a sub-array can be borrowed.
pub trait NDSliceable<'a, T: 'a>: NDData<T> {
    /// Borrows the sub-array whose leading coordinates are `idx`, which has
    /// fewer coordinates than the data has dimensions. The storage is
    /// row-major, so the sub-array is contiguous: of a matrix, a row can be
    /// borrowed.
    fn slice(&'a self, idx: &[usize]) -> (view: NDSlice<'a, T>)
        requires
            self.model().wf(),
            is_prefix_index(idx@, self.model().shape),
        ensures
            view.model() == window_of(self.model(), idx@),
            view.model().shape == self.model().shape.skip(idx@.len() as int),
            view.model().wf(),
            forall|j: Seq<usize>| #[trigger]
                in_bounds(j, view.model().shape) ==> view.model().at(j) == self.model().at(
                    idx@ + j,
                ),
    ;
}

impl<'a, T> NDData<T> for NDSlice<'a, T> {
    closed spec fn model(&self) -> ArrayModel<T> {
        ArrayModel { shape: self.shape@, strides: self.strides@, data: self.data@ }
    }

    fn shape(&self) -> (r: &[usize]) {
        self.shape
    }

    fn strides(&self) -> (r: &[usize]) {
        self.strides
    }

    fn get_data(&self) -> (r: &[T]) {
        self.data
    }
}

impl<'a, T: 'a> NDSliceable<'a, T> for NDArray<T> {
    fn slice(&'a self, idx: &[usize]) -> (view: NDSlice<'a, T>) {
        proof {
            lemma_window(self.model(), idx@);
        }
        let (start, end) = slice_window(
            self.shape.as_slice(),
            self.strides.as_slice(),
            self.data.len(),
            idx,
        );
        NDSlice {
            shape: slice_subrange(self.shape.as_slice(), idx.len(), self.shape.len()),
            strides: slice_subrange(self.strides.as_slice(), idx.len(), self.strides.len()),
            data: slice_subrange(self.data.as_slice(), start, end),
        }
    }
}

impl<'a, T: 'a> NDSliceable<'a, T> for NDSlice<'a, T> {
    fn slice(&'a self, idx: &[usize]) -> (view: NDSlice<'a, T>) {
        proof {
            lemma_window(self.model(), idx@);
        }
        let (start, end) = slice_window(self.shape, self.strides, self.data.len(), idx);
        NDSlice {
            shape: slice_subrange(self.shape, idx.len(), self.shape.len()),
            strides: slice_subrange(self.strides, idx.len(), self.strides.len()),
            data: slice_subrange(self.data, start, end),
        }
    }
}

impl<'a, T> NDData<T> for NDSliceMut<'a, T> {
    closed spec fn model(&self) -> ArrayModel<T> {
        ArrayModel { shape: self.shape@, strides: self.strides@, data: self.data@ }
    }

    fn shape(&self) -> (r: &[usize]) {
        self.shape
    }

    fn strides(&self) -> (r: &[usize]) {
        self.strides
    }

    fn get_data(&self) -> (r: &[T]) {
        self.data
    }
}

impl<'a, T: Copy> NDDataMut<T> for NDSliceMut<'a, T> {
    fn get_data_mut(&mut self) -> (r: &mut [T])
        ensures
            final(final(self).data)@ == final(old(self).data)@,
    {
        self.data
    }

    fn idx_mut(&mut self, idx: &[usize]) -> (r: &mut T)
        ensures
            final(final(self).data)@ == final(old(self).data)@,
    {
        proof {
            lemma_position_is_rank(idx@, self.model().shape);
            lemma_row_rank_bound(idx@, self.model().shape);
        }
        let pos = idx.to_pos(self.shape, self.strides);
        &mut self.data[pos]
    }

    fn transpose(&mut self)
        ensures
            final(final(self).data)@ == final(old(self).data)@,
    {
        transpose_storage(self.shape, self.strides, self.data);
    }

    fn assign<O: NDData<T>>(&mut self, other: &O)
        ensures
            final(final(self).data)@ == final(old(self).data)@,
    {
        assign_storage(self.shape, self.strides, self.data, other);
    }
}

/// N-dimensional data of which a sub-array can be borrowed for writing.
pub trait NDSliceableMut<'a, T: 'a>: NDSliceable<'a, T> {
    /// Borrows for writing the sub-array whose leading coordinates are
    /// `idx`. When the borrow ends, the data holds what the view then holds
    /// in the place of the sub-array, and is otherwise unchanged.
    fn slice_mut(&'a mut self, idx: &[usize]) -> (view: NDSliceMut<'a, T>)
        requires
            old(self).model().wf(),
            is_prefix_index(idx@, old(self).model().shape),
        ensures
            view.model() == window_of(old(self).model(), idx@),
            view.model().wf(),
            final(self).model().shape == old(self).model().shape,
            final(self).model().strides == old(self).model().strides,
            final(self).model().data == with_window(
                old(self).model(),
                idx@,
                final(view.data)@,
            ),
    ;
}

impl<'a, T: 'a> NDSliceableMut<'a, T> for NDArray<T> {
    fn slice_mut(&'a mut self, idx: &[usize]) -> (view: NDSliceMut<'a, T>) {
        proof {
            lemma_window(self.model(), idx@);
        }
        let (start, end) = slice_window(
            self.shape.as_slice(),
            self.strides.as_slice(),
            self.data.len(),
            idx,
        );
        let ghost stored = self.data@;
        let (_, rest) = self.data.as_mut_slice().split_at_mut(start);
        let (window, _) = rest.split_at_mut(end - start);
        assert(window@ =~= stored.subrange(start as int, end as int));
        NDSliceMut {
            shape: slice_subrange(self.shape.as_slice(), idx.len(), self.shape.len()),
            strides: slice_subrange(self.strides.as_slice(), idx.len(), self.strides.len()),
            data: window,
        }
    }
}

impl<'a, T: 'a> NDSliceable<'a, T> for NDSliceMut<'a, T> {
    fn slice(&'a self, idx: &[usize]) -> (view: NDSlice<'a, T>) {
        proof {
            lemma_window(self.model(), idx@);
        }
        let (start, end) = slice_window(self.shape, self.strides, self.data.len(), idx);
        NDSlice {
            shape: slice_subrange(self.shape, idx.len(), self.shape.len()),
            strides: slice_subrange(self.strides, idx.len(), self.strides.len()),
            data: slice_subrange(self.data, start, end),
        }
    }
}

impl<'a, T: 'a> NDSliceableMut<'a, T> for NDSliceMut<'a, T> {
    fn slice_mut(&'a mut self, idx: &[usize]) -> (view: NDSliceMut<'a, T>) {
        proof {
            lemma_window(self.model(), idx@);
        }
        let (start, end) = slice_window(self.shape, self.strides, self.data.len(), idx);
        let ghost stored = self.data@;
        let (_, rest) = self.data.split_at_mut(start);
        let (window, _) = rest.split_at_mut(end - start);
        assert(window@ =~= stored.subrange(start as int, end as int));
        NDSliceMut {
            shape: slice_subrange(self.shape, idx.len(), self.shape.len()),
            strides: slice_subrange(self.strides, idx.len(), self.strides.len()),
            data: window,
        }
    }
}

/// Tells whether the strides and the storage of an array or a view are
/// those of a contiguous row-major array of its shape.
pub fn is_well_formed<T, A: NDData<T>>(array: &A) -> (r: bool)
    ensures
        r == array.model().wf(),
{
    let shape = array.shape();
    let strides = array.strides();
    if !shape_is_addressable(shape) {
        return false;
    }
    if strides.len() != shape.len() {
        return false;
    }
    let expected = NDArray::<usize>::compute_strides(shape);
    let mut i: usize = 0;
    while i < strides.len()
        invariant
            i <= strides@.len(),
            strides@.len() == expected@.len(),
            strides@ == array.model().strides,
            expected@ == row_major_strides(array.model().shape),
            forall|k: int| 0 <= k < i ==> strides@[k] == expected@[k],
        decreases strides@.len() - i,
    {
        if strides[i] != expected[i] {
            assert(strides@[i as int] != expected@[i as int]);
            return false;
        }
        i += 1;
    }
    assert(strides@ =~= expected@);
    array.get_data().len() == shape_product(shape)
}

impl<T: PartialEq + Copy> PartialEq for NDArray<T> {
    /// Two arrays are equal when they have the same shape and equal
    /// elements at every index.
    fn eq(&self, other: &NDArray<T>) -> (r: bool) {
        is_well_formed(self) && is_well_formed(other) && arrays_equal(self, other)
    }
}

impl<T: PartialEq + Copy> PartialEqSpecImpl for NDArray<T> {
    open spec fn obeys_eq_spec() -> bool {
        T::obeys_eq_spec()
    }

    open spec fn eq_spec(&self, other: &NDArray<T>) -> bool {
        &&& self.model().wf()
        &&& other.model().wf()
        &&& models_equal(self.model(), other.model())
    }
}

impl<'a, T: PartialEq + Copy> PartialEq for NDSlice<'a, T> {
    /// Two views are equal when they have the same shape and equal elements
    /// at every index.
    fn eq(&self, other: &NDSlice<'a, T>) -> (r: bool) {
        is_well_formed(self) && is_well_formed(other) && arrays_equal(self, other)
    }
}

impl<'a, T: PartialEq + Copy> PartialEqSpecImpl for NDSlice<'a, T> {
    open spec fn obeys_eq_spec() -> bool {
        T::obeys_eq_spec()
    }

    open spec fn eq_spec(&self, other: &NDSlice<'a, T>) -> bool {
        &&& self.model().wf()
        &&& other.model().wf()
        &&& models_equal(self.model(), other.model())
    }
}

impl<'a, T: PartialEq + Copy> PartialEq for NDSliceMut<'a, T> {
    /// Two views are equal when they have the same shape and equal elements
    /// at every index.
    fn eq(&self, other: &NDSliceMut<'a, T>) -> (r: bool) {
        is_well_formed(self) && is_well_formed(other) && arrays_equal(self, other)
    }
}

impl<'a, T: PartialEq + Copy> PartialEqSpecImpl for NDSliceMut<'a, T> {
    open spec fn obeys_eq_spec() -> bool {
        T::obeys_eq_spec()
    }

    open spec fn eq_spec(&self, other: &NDSliceMut<'a, T>) -> bool {
        &&& self.model().wf()
        &&& other.model().wf()
        &&& models_equal(self.model(), other.model())
    }
}

impl<'b, T> Index<&'b [usize]> for NDArray<T> {
    type Output = T;

    /// The element of an array at an index, as `idx` gives it.
    fn index(&self, idx: &'b [usize]) -> (r: &T)
        ensures
            *r == self.model().at(idx@),
    {
        self.idx(idx)
    }
}

impl<'b, T> vstd::std_specs::core::IndexSpecImpl<&'b [usize]> for NDArray<T> {
    open spec fn index_req(&self, idx: &&'b [usize]) -> bool {
        self.model().wf() && in_bounds(idx@, self.model().shape)
    }
}

impl<'b, T> Index<&'b [usize; 1]> for NDArray<T> {
    type Output = T;

    /// The element of an array at an index, as `idx` gives it.
    fn index(&self, idx: &'b [usize; 1]) -> (r: &T)
        ensures
            *r == self.model().at(idx@),
    {
        self.idx(idx.as_slice())
    }
}

impl<'b, T> vstd::std_specs::core::IndexSpecImpl<&'b [usize; 1]> for NDArray<T> {
    open spec fn index_req(&self, idx: &&'b [usize; 1]) -> bool {
        self.model().wf() && in_bounds(idx@, self.model().shape)
    }
}

impl<'b, T> Index<&'b [usize; 2]> for NDArray<T> {
    type Output = T;

    /// The element of an array at an index, as `idx` gives it.
    fn index(&self, idx: &'b [usize; 2]) -> (r: &T)
        ensures
            *r == self.model().at(idx@),
    {
        self.idx(idx.as_slice())
    }
}

impl<'b, T> vstd::std_specs::core::IndexSpecImpl<&'b [usize; 2]> for NDArray<T> {
    open spec fn index_req(&self, idx: &&'b [usize; 2]) -> bool {
        self.model().wf() && in_bounds(idx@, self.model().shape)
    }
}

impl<'b, T> Index<&'b [usize; 3]> for NDArray<T> {
    type Output = T;

    /// The element of an array at an index, as `idx` gives it.
    fn index(&self, idx: &'b [usize; 3]) -> (r: &T)
        ensures
            *r == self.model().at(idx@),
    {
        self.idx(idx.as_slice())
    }
}

impl<'b, T> vstd::std_specs::core::IndexSpecImpl<&'b [usize; 3]> for NDArray<T> {
    open spec fn index_req(&self, idx: &&'b [usize; 3]) -> bool {
        self.model().wf() && in_bounds(idx@, self.model().shape)
    }
}

impl<'a, 'b, T> Index<&'b [usize]> for NDSlice<'a, T> {
    type Output = T;

    /// The element of a view at an index, as `idx` gives it.
    fn index(&self, idx: &'b [usize]) -> (r: &T)
        ensures
            *r == self.model().at(idx@),
    {
        self.idx(idx)
    }
}

impl<'a, 'b, T> vstd::std_specs::core::IndexSpecImpl<&'b [usize]> for NDSlice<'a, T> {
    open spec fn index_req(&self, idx: &&'b [usize]) -> bool {
        self.model().wf() && in_bounds(idx@, self.model().shape)
    }
}

impl<'a, 'b, T> Index<&'b [usize; 1]> for NDSlice<'a, T> {
    type Output = T;

    /// The element of a view at an index, as `idx` gives it.
    fn index(&self, idx: &'b [usize; 1]) -> (r: &T)
        ensures
            *r == self.model().at(idx@),
    {
        self.idx(idx.as_slice())
    }
}

impl<'a, 'b, T> vstd::std_specs::core::IndexSpecImpl<&'b [usize; 1]> for NDSlice<'a, T> {
    open spec fn index_req(&self, idx: &&'b [usize; 1]) -> bool {
        self.model().wf() && in_bounds(idx@, self.model().shape)
    }
}

impl<'a, 'b, T> Index<&'b [usize; 2]> for NDSlice<'a, T> {
    type Output = T;

    /// The element of a view at an index, as `idx` gives it.
    fn index(&self, idx: &'b [usize; 2]) -> (r: &T)
        ensures
            *r == self.model().at(idx@),
    {
        self.idx(idx.as_slice())
    }
}

impl<'a, 'b, T> vstd::std_specs::core::IndexSpecImpl<&'b [usize; 2]> for NDSlice<'a, T> {
    open spec fn index_req(&self, idx: &&'b [usize; 2]) -> bool {
        self.model().wf() && in_bounds(idx@, self.model().shape)
    }
}

impl<'a, 'b, T> Index<&'b [usize; 3]> for NDSlice<'a, T> {
    type Output = T;

    /// The element of a view at an index, as `idx` gives it.
    fn index(&self, idx: &'b [usize; 3]) -> (r: &T)
        ensures
            *r == self.model().at(idx@),
    {
        self.idx(idx.as_slice())
    }
}

impl<'a, 'b, T> vstd::std_specs::core::IndexSpecImpl<&'b [usize; 3]> for NDSlice<'a, T> {
    open spec fn index_req(&self, idx: &&'b [usize; 3]) -> bool {
        self.model().wf() && in_bounds(idx@, self.model().shape)
    }
}

impl<'a, 'b, T> Index<&'b [usize]> for NDSliceMut<'a, T> {
    type Output = T;

    /// The element of a view at an index, as `idx` gives it.
    fn index(&self, idx: &'b [usize]) -> (r: &T)
        ensures
            *r == self.model().at(idx@),
    {
        self.idx(idx)
    }
}

impl<'a, 'b, T> vstd::std_specs::core::IndexSpecImpl<&'b [usize]> for NDSliceMut<'a, T> {
    open spec fn index_req(&self, idx: &&'b [usize]) -> bool {
        self.model().wf() && in_bounds(idx@, self.model().shape)
    }
}

impl<'a, 'b, T> Index<&'b [usize; 1]> for NDSliceMut<'a, T> {
    type Output = T;

    /// The element of a view at an index, as `idx` gives it.
    fn index(&self, idx: &'b [usize; 1]) -> (r: &T)
        ensures
            *r == self.model().at(idx@),
    {
        self.idx(idx.as_slice())
    }
}

impl<'a, 'b, T> vstd::std_specs::core::IndexSpecImpl<&'b [usize; 1]> for NDSliceMut<'a, T> {
    open spec fn index_req(&self, idx: &&'b [usize; 1]) -> bool {
        self.model().wf() && in_bounds(idx@, self.model().shape)
    }
}

impl<'a, 'b, T> Index<&'b [usize; 2]> for NDSliceMut<'a, T> {
    type Output = T;

    /// The element of a view at an index, as `idx` gives it.
    fn index(&self, idx: &'b [usize; 2]) -> (r: &T)
        ensures
            *r == self.model().at(idx@),
    {
        self.idx(idx.as_slice())
    }
}

impl<'a, 'b, T> vstd::std_specs::core::IndexSpecImpl<&'b [usize; 2]> for NDSliceMut<'a, T> {
    open spec fn index_req(&self, idx: &&'b [usize; 2]) -> bool {
        self.model().wf() && in_bounds(idx@, self.model().shape)
    }
}

impl<'a, 'b, T> Index<&'b [usize; 3]> for NDSliceMut<'a, T> {
    type Output = T;

    /// The element of a view at an index, as `idx` gives it.
    fn index(&self, idx: &'b [usize; 3]) -> (r: &T)
        ensures
            *r == self.model().at(idx@),
    {
        self.idx(idx.as_slice())
    }
}

impl<'a, 'b, T> vstd::std_specs::core::IndexSpecImpl<&'b [usize; 3]> for NDSliceMut<'a, T> {
    open spec fn index_req(&self, idx: &&'b [usize; 3]) -> bool {
        self.model().wf() && in_bounds(idx@, self.model().shape)
    }
}

} // verus!
