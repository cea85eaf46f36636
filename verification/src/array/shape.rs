//! The mathematical model of shapes, strides and multi-dimensional indices.

use vstd::prelude::*;
use vstd::arithmetic::div_mod::{lemma_fundamental_div_mod, lemma_fundamental_div_mod_converse};
use vstd::arithmetic::mul::lemma_mul_is_commutative;

verus! {

/// Product of the dimension lengths `shape[from..]`.
pub open spec fn suffix_size(shape: Seq<usize>, from: int) -> nat
    decreases shape.len() - from,
{
    if from < 0 || from >= shape.len() {
        1
    } else {
        shape[from] as nat * suffix_size(shape, from + 1)
    }
}

/// Product of the dimension lengths `shape[..n]`.
pub open spec fn prefix_size(shape: Seq<usize>, n: int) -> nat
    decreases n,
{
    if n <= 0 || n > shape.len() {
        1
    } else {
        prefix_size(shape, n - 1) * shape[n - 1] as nat
    }
}

/// Number of elements of an array of this shape.
pub open spec fn shape_size(shape: Seq<usize>) -> nat {
    suffix_size(shape, 0)
}

/// Every stride of the shape, and its size, can be held in a `usize`.
pub open spec fn shape_fits(shape: Seq<usize>) -> bool {
    forall|i: int| 0 <= i <= shape.len() ==> #[trigger] suffix_size(shape, i) <= usize::MAX
}

/// Strides of a contiguous row-major layout: the last one is 1, and each
/// other one is the next stride times the next dimension length.
pub open spec fn row_major_strides(shape: Seq<usize>) -> Seq<usize> {
    Seq::new(shape.len(), |i: int| suffix_size(shape, i + 1) as usize)
}

/// The index has the rank of the shape and every coordinate is in range.
pub open spec fn in_bounds(idx: Seq<usize>, shape: Seq<usize>) -> bool {
    &&& idx.len() == shape.len()
    &&& forall|i: int| 0 <= i < idx.len() ==> #[trigger] idx[i] < shape[i]
}

/// The index moved by an offset in every dimension.
pub open spec fn shifted(idx: Seq<usize>, start: Seq<usize>) -> Seq<usize> {
    Seq::new(idx.len(), |i: int| (idx[i] + start[i]) as usize)
}

/// The shape of the region between two corner indices.
pub open spec fn extent(start: Seq<usize>, end: Seq<usize>) -> Seq<usize> {
    Seq::new(start.len(), |i: int| (end[i] - start[i]) as usize)
}

/// The sequence read from its end.
pub open spec fn mirror(s: Seq<usize>) -> Seq<usize> {
    Seq::new(s.len(), |i: int| s[s.len() - 1 - i])
}

/// Every dimension has the same length.
pub open spec fn uniform(shape: Seq<usize>) -> bool {
    forall|i: int| 0 <= i < shape.len() ==> #[trigger] shape[i] == shape[0]
}

/// The all-zero index of the given rank.
pub open spec fn zero_index(rank: nat) -> Seq<usize> {
    Seq::new(rank, |i: int| 0usize)
}

/// Every coordinate is 0.
pub open spec fn all_zero(idx: Seq<usize>) -> bool {
    forall|i: int| 0 <= i < idx.len() ==> #[trigger] idx[i] == 0
}

/// Sum of `idx[i] * strides[i]` over the first `n` dimensions.
pub open spec fn dot(idx: Seq<usize>, strides: Seq<usize>, n: int) -> nat
    decreases n,
{
    if n <= 0 {
        0
    } else {
        dot(idx, strides, n - 1) + idx[n - 1] as nat * strides[n - 1] as nat
    }
}

/// Linear storage position of an index under the given strides.
pub open spec fn position(idx: Seq<usize>, strides: Seq<usize>) -> nat {
    dot(idx, strides, idx.len() as int)
}

/// Number of steps of a row-major traversal (last coordinate fastest) that
/// lead from the all-zero index to the first `n` coordinates of `idx`.
pub open spec fn rank_ro(idx: Seq<usize>, shape: Seq<usize>, n: int) -> nat
    decreases n,
{
    if n <= 0 {
        0
    } else {
        rank_ro(idx, shape, n - 1) * shape[n - 1] as nat + idx[n - 1] as nat
    }
}

/// Number of steps of a column-major traversal (first coordinate fastest)
/// that lead from the all-zero index to the coordinates `idx[from..]`.
pub open spec fn rank_co(idx: Seq<usize>, shape: Seq<usize>, from: int) -> nat
    decreases idx.len() - from,
{
    if from < 0 || from >= idx.len() {
        0
    } else {
        idx[from] as nat + shape[from] as nat * rank_co(idx, shape, from + 1)
    }
}

/// Row-major rank of a whole index.
pub open spec fn row_rank(idx: Seq<usize>, shape: Seq<usize>) -> nat {
    rank_ro(idx, shape, idx.len() as int)
}

/// Column-major rank of a whole index.
pub open spec fn col_rank(idx: Seq<usize>, shape: Seq<usize>) -> nat {
    rank_co(idx, shape, 0)
}

/// The product of a prefix and of the matching suffix is the whole size.
pub proof fn lemma_prefix_suffix(shape: Seq<usize>, n: int)
    requires
        0 <= n <= shape.len(),
    ensures
        prefix_size(shape, n) * suffix_size(shape, n) == shape_size(shape),
    decreases n,
{
    if n > 0 {
        lemma_prefix_suffix(shape, n - 1);
        let p = prefix_size(shape, n - 1) as int;
        let d = shape[n - 1] as int;
        let s = suffix_size(shape, n) as int;
        assert(prefix_size(shape, n) == p * d);
        assert(suffix_size(shape, n - 1) == d * s);
        assert((p * d) * s == p * (d * s)) by (nonlinear_arith);
    } else {
        assert(1 * suffix_size(shape, 0) == suffix_size(shape, 0));
    }
}

/// Taken over all dimensions, the prefix product is the size.
pub proof fn lemma_prefix_size_all(shape: Seq<usize>)
    ensures
        prefix_size(shape, shape.len() as int) == shape_size(shape),
{
    lemma_prefix_suffix(shape, shape.len() as int);
    assert(suffix_size(shape, shape.len() as int) == 1);
    assert(prefix_size(shape, shape.len() as int) * 1 == prefix_size(shape, shape.len() as int));
}

/// The row-major rank of the first `n` coordinates of an index, each below
/// the length of its dimension, is below the product of the first `n`
/// dimension lengths.
pub proof fn lemma_rank_ro_bound(idx: Seq<usize>, shape: Seq<usize>, n: int)
    requires
        0 <= n <= shape.len(),
        n <= idx.len(),
        forall|i: int| 0 <= i < n ==> #[trigger] idx[i] < shape[i],
    ensures
        rank_ro(idx, shape, n) < prefix_size(shape, n),
    decreases n,
{
    if n > 0 {
        lemma_rank_ro_bound(idx, shape, n - 1);
        let r = rank_ro(idx, shape, n - 1) as int;
        let p = prefix_size(shape, n - 1) as int;
        let d = shape[n - 1] as int;
        let i = idx[n - 1] as int;
        assert(i < d);
        assert(r * d + i < p * d) by (nonlinear_arith)
            requires
                0 <= r < p,
                0 <= i < d,
        ;
    }
}

/// The row-major rank of an index that is in bounds is below the size.
pub proof fn lemma_row_rank_bound(idx: Seq<usize>, shape: Seq<usize>)
    requires
        in_bounds(idx, shape),
    ensures
        row_rank(idx, shape) < shape_size(shape),
{
    lemma_rank_ro_bound(idx, shape, shape.len() as int);
    lemma_prefix_size_all(shape);
}

/// The column-major rank of the coordinates from `from` on is below the
/// product of their dimension lengths.
pub proof fn lemma_rank_co_bound(idx: Seq<usize>, shape: Seq<usize>, from: int)
    requires
        in_bounds(idx, shape),
        0 <= from <= shape.len(),
    ensures
        rank_co(idx, shape, from) < suffix_size(shape, from),
    decreases shape.len() - from,
{
    if from < shape.len() {
        lemma_rank_co_bound(idx, shape, from + 1);
        let r = rank_co(idx, shape, from + 1) as int;
        let s = suffix_size(shape, from + 1) as int;
        let d = shape[from] as int;
        let i = idx[from] as int;
        assert(i < d);
        assert(i + d * r < d * s) by (nonlinear_arith)
            requires
                0 <= r < s,
                0 <= i < d,
        ;
    }
}

/// The column-major rank of an index that is in bounds is below the size.
pub proof fn lemma_col_rank_bound(idx: Seq<usize>, shape: Seq<usize>)
    requires
        in_bounds(idx, shape),
    ensures
        col_rank(idx, shape) < shape_size(shape),
{
    lemma_rank_co_bound(idx, shape, 0);
}

/// Under row-major strides the weighted sum of the first `n` coordinates is
/// their row-major rank times the stride that precedes dimension `n`.
pub proof fn lemma_dot_is_rank(idx: Seq<usize>, shape: Seq<usize>, n: int)
    requires
        shape_fits(shape),
        0 <= n <= shape.len(),
        n <= idx.len(),
    ensures
        dot(idx, row_major_strides(shape), n) == rank_ro(idx, shape, n) * suffix_size(shape, n),
    decreases n,
{
    if n > 0 {
        lemma_dot_is_rank(idx, shape, n - 1);
        let strides = row_major_strides(shape);
        let r = rank_ro(idx, shape, n - 1) as int;
        let d = shape[n - 1] as int;
        let i = idx[n - 1] as int;
        let s = suffix_size(shape, n) as int;
        assert(suffix_size(shape, n) <= usize::MAX);
        assert(strides[n - 1] as int == s);
        assert(suffix_size(shape, n - 1) == d * s);
        assert(dot(idx, strides, n - 1) == r * (d * s));
        assert(dot(idx, strides, n) == r * (d * s) + i * s);
        assert(rank_ro(idx, shape, n) == r * d + i);
        assert(r * (d * s) + i * s == (r * d + i) * s) by (nonlinear_arith);
    } else {
        assert(0 * suffix_size(shape, 0) == 0);
    }
}

/// Under row-major strides the storage position of an index is its row-major
/// rank.
pub proof fn lemma_position_is_rank(idx: Seq<usize>, shape: Seq<usize>)
    requires
        idx.len() == shape.len(),
        shape_fits(shape),
    ensures
        position(idx, row_major_strides(shape)) == row_rank(idx, shape),
{
    lemma_dot_is_rank(idx, shape, shape.len() as int);
}

/// Two indices in bounds whose first `n` coordinates have the same row-major
/// rank agree on those coordinates.
pub proof fn lemma_rank_ro_injective(a: Seq<usize>, b: Seq<usize>, shape: Seq<usize>, n: int)
    requires
        in_bounds(a, shape),
        in_bounds(b, shape),
        0 <= n <= shape.len(),
        rank_ro(a, shape, n) == rank_ro(b, shape, n),
    ensures
        forall|i: int| 0 <= i < n ==> a[i] == b[i],
    decreases n,
{
    if n > 0 {
        let d = shape[n - 1] as int;
        let x = rank_ro(a, shape, n) as int;
        assert(a[n - 1] < shape[n - 1]);
        assert(b[n - 1] < shape[n - 1]);
        lemma_mul_is_commutative(rank_ro(a, shape, n - 1) as int, d);
        lemma_mul_is_commutative(rank_ro(b, shape, n - 1) as int, d);
        lemma_fundamental_div_mod_converse(x, d, rank_ro(a, shape, n - 1) as int, a[n - 1] as int);
        lemma_fundamental_div_mod_converse(x, d, rank_ro(b, shape, n - 1) as int, b[n - 1] as int);
        lemma_rank_ro_injective(a, b, shape, n - 1);
    }
}

/// Two indices in bounds with the same row-major rank are the same index.
pub proof fn lemma_row_rank_injective(a: Seq<usize>, b: Seq<usize>, shape: Seq<usize>)
    requires
        in_bounds(a, shape),
        in_bounds(b, shape),
        row_rank(a, shape) == row_rank(b, shape),
    ensures
        a == b,
{
    lemma_rank_ro_injective(a, b, shape, shape.len() as int);
    assert(a =~= b);
}

/// Two indices in bounds whose coordinates from `from` on have the same
/// column-major rank agree on those coordinates.
pub proof fn lemma_rank_co_injective(a: Seq<usize>, b: Seq<usize>, shape: Seq<usize>, from: int)
    requires
        in_bounds(a, shape),
        in_bounds(b, shape),
        0 <= from <= shape.len(),
        rank_co(a, shape, from) == rank_co(b, shape, from),
    ensures
        forall|i: int| from <= i < shape.len() ==> a[i] == b[i],
    decreases shape.len() - from,
{
    if from < shape.len() {
        let d = shape[from] as int;
        let x = rank_co(a, shape, from) as int;
        assert(a[from] < shape[from]);
        assert(b[from] < shape[from]);
        lemma_mul_is_commutative(rank_co(a, shape, from + 1) as int, d);
        lemma_mul_is_commutative(rank_co(b, shape, from + 1) as int, d);
        lemma_fundamental_div_mod_converse(x, d, rank_co(a, shape, from + 1) as int, a[from] as int);
        lemma_fundamental_div_mod_converse(x, d, rank_co(b, shape, from + 1) as int, b[from] as int);
        lemma_rank_co_injective(a, b, shape, from + 1);
    }
}

/// Two indices in bounds with the same column-major rank are the same index.
pub proof fn lemma_col_rank_injective(a: Seq<usize>, b: Seq<usize>, shape: Seq<usize>)
    requires
        in_bounds(a, shape),
        in_bounds(b, shape),
        col_rank(a, shape) == col_rank(b, shape),
    ensures
        a == b,
{
    lemma_rank_co_injective(a, b, shape, 0);
    assert(a =~= b);
}

/// The first `n` coordinates of an all-zero index have row-major rank 0.
pub proof fn lemma_zero_rank_ro(idx: Seq<usize>, shape: Seq<usize>, n: int)
    requires
        all_zero(idx),
        0 <= n <= idx.len(),
    ensures
        rank_ro(idx, shape, n) == 0,
    decreases n,
{
    if n > 0 {
        lemma_zero_rank_ro(idx, shape, n - 1);
        assert(idx[n - 1] == 0);
        assert(0 * shape[n - 1] as nat == 0);
    }
}

/// The coordinates from `from` on of an all-zero index have column-major
/// rank 0.
pub proof fn lemma_zero_rank_co(idx: Seq<usize>, shape: Seq<usize>, from: int)
    requires
        all_zero(idx),
        0 <= from <= idx.len(),
    ensures
        rank_co(idx, shape, from) == 0,
    decreases idx.len() - from,
{
    if from < idx.len() {
        lemma_zero_rank_co(idx, shape, from + 1);
        assert(idx[from] == 0);
        assert(shape[from] as nat * 0 == 0);
    }
}

/// In a shape of positive size every dimension from `from` on has a positive
/// length.
pub proof fn lemma_positive_dims(shape: Seq<usize>, from: int)
    requires
        0 <= from <= shape.len(),
        suffix_size(shape, from) > 0,
    ensures
        forall|i: int| from <= i < shape.len() ==> #[trigger] shape[i] > 0,
    decreases shape.len() - from,
{
    if from < shape.len() {
        let d = shape[from] as int;
        let s = suffix_size(shape, from + 1) as int;
        assert(d * s > 0 ==> d > 0 && s > 0) by (nonlinear_arith)
            requires
                d >= 0,
                s >= 0,
        ;
        lemma_positive_dims(shape, from + 1);
    }
}

/// The all-zero index is in bounds of a shape of positive size.
pub proof fn lemma_zero_in_bounds(shape: Seq<usize>)
    requires
        shape_size(shape) > 0,
    ensures
        in_bounds(zero_index(shape.len()), shape),
        all_zero(zero_index(shape.len())),
        row_rank(zero_index(shape.len()), shape) == 0,
        col_rank(zero_index(shape.len()), shape) == 0,
{
    lemma_positive_dims(shape, 0);
    let z = zero_index(shape.len());
    assert forall|i: int| 0 <= i < z.len() implies #[trigger] z[i] < shape[i] by {
        assert(shape[i] > 0);
    }
    lemma_zero_rank_ro(z, shape, shape.len() as int);
    lemma_zero_rank_co(z, shape, 0);
}

/// A shape with an index in bounds has a positive size.
pub proof fn lemma_in_bounds_positive(idx: Seq<usize>, shape: Seq<usize>)
    requires
        in_bounds(idx, shape),
    ensures
        shape_size(shape) > 0,
{
    lemma_row_rank_bound(idx, shape);
}

/// Shrinking dimension lengths does not grow the products.
pub proof fn lemma_suffix_size_monotonic(small: Seq<usize>, big: Seq<usize>, from: int)
    requires
        small.len() == big.len(),
        0 <= from <= big.len(),
        forall|i: int| 0 <= i < big.len() ==> #[trigger] small[i] <= big[i],
    ensures
        suffix_size(small, from) <= suffix_size(big, from),
    decreases big.len() - from,
{
    if from < big.len() {
        lemma_suffix_size_monotonic(small, big, from + 1);
        let a = small[from] as int;
        let b = big[from] as int;
        let x = suffix_size(small, from + 1) as int;
        let y = suffix_size(big, from + 1) as int;
        assert(a <= b);
        assert(a * x <= b * y) by (nonlinear_arith)
            requires
                0 <= a <= b,
                0 <= x <= y,
        ;
    }
}

/// A shape that is, dimension by dimension, at most a shape whose strides
/// fit, has strides that fit too.
pub proof fn lemma_smaller_shape_fits(small: Seq<usize>, big: Seq<usize>)
    requires
        small.len() == big.len(),
        shape_fits(big),
        forall|i: int| 0 <= i < big.len() ==> #[trigger] small[i] <= big[i],
    ensures
        shape_fits(small),
{
    assert forall|i: int| 0 <= i <= small.len() implies #[trigger] suffix_size(small, i)
        <= usize::MAX by {
        lemma_suffix_size_monotonic(small, big, i);
        assert(suffix_size(big, i) <= usize::MAX);
    }
}

/// The products of a shape without its first `k` dimensions are those of
/// the shape, taken `k` dimensions later.
pub proof fn lemma_suffix_size_skip(shape: Seq<usize>, k: int, i: int)
    requires
        0 <= k <= shape.len(),
        0 <= i <= shape.len() - k,
    ensures
        suffix_size(shape.skip(k), i) == suffix_size(shape, i + k),
    decreases shape.len() - k - i,
{
    if i < shape.len() - k {
        lemma_suffix_size_skip(shape, k, i + 1);
        assert(shape.skip(k)[i] == shape[i + k]);
    }
}

/// A shape without its first `k` dimensions: its strides fit, they are the
/// strides of the shape without the first `k` of them, and its size is the
/// product of the dimension lengths from `k` on.
pub proof fn lemma_tail_shape(shape: Seq<usize>, k: int)
    requires
        shape_fits(shape),
        0 <= k <= shape.len(),
    ensures
        shape_fits(shape.skip(k)),
        row_major_strides(shape.skip(k)) == row_major_strides(shape).skip(k),
        shape_size(shape.skip(k)) == suffix_size(shape, k),
{
    let tail = shape.skip(k);
    assert forall|i: int| 0 <= i <= tail.len() implies #[trigger] suffix_size(tail, i)
        <= usize::MAX by {
        lemma_suffix_size_skip(shape, k, i);
        assert(suffix_size(shape, i + k) <= usize::MAX);
    }
    assert forall|i: int| 0 <= i < tail.len() implies row_major_strides(tail)[i]
        == row_major_strides(shape).skip(k)[i] by {
        lemma_suffix_size_skip(shape, k, i + 1);
    }
    assert(row_major_strides(tail) =~= row_major_strides(shape).skip(k));
    lemma_suffix_size_skip(shape, k, 0);
}

/// The first `n` coordinates of two indices that agree on them have the
/// same row-major rank.
pub proof fn lemma_rank_ro_agree(a: Seq<usize>, b: Seq<usize>, shape: Seq<usize>, n: int)
    requires
        forall|k: int| 0 <= k < n ==> a[k] == b[k],
    ensures
        rank_ro(a, shape, n) == rank_ro(b, shape, n),
    decreases n,
{
    if n > 0 {
        lemma_rank_ro_agree(a, b, shape, n - 1);
    }
}

/// The rank of a prefix followed by an index of the remaining dimensions,
/// taken over the prefix and the first `m` of the remaining coordinates.
pub proof fn lemma_rank_ro_concat(prefix: Seq<usize>, rest: Seq<usize>, shape: Seq<usize>, m: int)
    requires
        prefix.len() <= shape.len(),
        0 <= m <= rest.len(),
        prefix.len() + m <= shape.len(),
    ensures
        rank_ro(prefix + rest, shape, prefix.len() + m) == rank_ro(
            prefix,
            shape,
            prefix.len() as int,
        ) * prefix_size(shape.skip(prefix.len() as int), m) + rank_ro(
            rest,
            shape.skip(prefix.len() as int),
            m,
        ),
    decreases m,
{
    let k = prefix.len() as int;
    let whole = prefix + rest;
    let tail = shape.skip(k);
    let r = rank_ro(prefix, shape, k) as int;
    if m == 0 {
        lemma_rank_ro_agree(whole, prefix, shape, k);
        assert(r * 1 + 0 == r);
    } else {
        lemma_rank_ro_concat(prefix, rest, shape, m - 1);
        let p = prefix_size(tail, m - 1) as int;
        let q = rank_ro(rest, tail, m - 1) as int;
        let d = shape[k + m - 1] as int;
        assert(tail[m - 1] == shape[k + m - 1]);
        assert(whole[k + m - 1] == rest[m - 1]);
        assert(rank_ro(whole, shape, k + m) == (r * p + q) * d + rest[m - 1]);
        assert(prefix_size(tail, m) == p * d);
        assert(rank_ro(rest, tail, m) == q * d + rest[m - 1]);
        assert((r * p + q) * d == r * (p * d) + q * d) by (nonlinear_arith);
    }
}

/// The products of a shape read backwards are the products of the first
/// dimension lengths of the shape.
pub proof fn lemma_mirror_suffix(shape: Seq<usize>, i: int)
    requires
        0 <= i <= shape.len(),
    ensures
        suffix_size(mirror(shape), i) == prefix_size(shape, shape.len() - i),
    decreases shape.len() - i,
{
    if i < shape.len() {
        lemma_mirror_suffix(shape, i + 1);
        let n = shape.len() - i;
        assert(mirror(shape)[i] == shape[n - 1]);
        lemma_mul_is_commutative(shape[n - 1] as int, prefix_size(shape, n - 1) as int);
    }
}

/// The strides of a shape of positive size, read backwards, fit too.
pub proof fn lemma_mirror_fits(shape: Seq<usize>)
    requires
        shape_fits(shape),
        shape_size(shape) > 0,
    ensures
        shape_fits(mirror(shape)),
{
    assert forall|i: int| 0 <= i <= mirror(shape).len() implies #[trigger] suffix_size(
        mirror(shape),
        i,
    ) <= usize::MAX by {
        let n = shape.len() - i;
        lemma_mirror_suffix(shape, i);
        lemma_prefix_suffix(shape, n);
        let p = prefix_size(shape, n) as int;
        let q = suffix_size(shape, n) as int;
        assert(p * q > 0 ==> p <= p * q) by (nonlinear_arith)
            requires
                p >= 0,
                q >= 0,
        ;
        assert(suffix_size(shape, 0) <= usize::MAX);
    }
}

/// The rank of the first `n` coordinates depends on those coordinates and
/// on the first `n` dimension lengths alone.
pub proof fn lemma_rank_ro_prefix(
    a: Seq<usize>,
    b: Seq<usize>,
    shape_a: Seq<usize>,
    shape_b: Seq<usize>,
    n: int,
)
    requires
        forall|k: int| 0 <= k < n ==> a[k] == b[k],
        forall|k: int| 0 <= k < n ==> shape_a[k] == shape_b[k],
    ensures
        rank_ro(a, shape_a, n) == rank_ro(b, shape_b, n),
    decreases n,
{
    if n > 0 {
        lemma_rank_ro_prefix(a, b, shape_a, shape_b, n - 1);
    }
}

/// The product of the first `n` dimension lengths depends on them alone.
pub proof fn lemma_prefix_size_prefix(shape_a: Seq<usize>, shape_b: Seq<usize>, n: int)
    requires
        0 <= n <= shape_a.len(),
        n <= shape_b.len(),
        forall|k: int| 0 <= k < n ==> shape_a[k] == shape_b[k],
    ensures
        prefix_size(shape_a, n) == prefix_size(shape_b, n),
    decreases n,
{
    if n > 0 {
        lemma_prefix_size_prefix(shape_a, shape_b, n - 1);
    }
}

/// The index at a row-major rank: the last coordinate is the rest of the
/// division of the rank by the last dimension length, and the coordinates
/// before it are the index at the quotient in the shape without its last
/// dimension.
pub open spec fn index_at(rank: nat, shape: Seq<usize>) -> Seq<usize>
    decreases shape.len(),
{
    if shape.len() == 0 {
        Seq::empty()
    } else if shape.last() == 0 {
        index_at(0, shape.drop_last()).push(0)
    } else {
        index_at(rank / (shape.last() as nat), shape.drop_last()).push(
            (rank % (shape.last() as nat)) as usize,
        )
    }
}

/// Every rank below the size of a shape is the rank of an index in bounds:
/// of the index at that rank.
pub proof fn lemma_index_at(rank: nat, shape: Seq<usize>)
    requires
        rank < prefix_size(shape, shape.len() as int),
    ensures
        in_bounds(index_at(rank, shape), shape),
        row_rank(index_at(rank, shape), shape) == rank,
    decreases shape.len(),
{
    let n = shape.len() as int;
    if n > 0 {
        let front = shape.drop_last();
        let d = shape.last() as nat;
        let p = prefix_size(front, n - 1);
        lemma_prefix_size_prefix(shape, front, n - 1);
        assert(prefix_size(shape, n) == p * d);
        assert(d > 0) by {
            if d == 0 {
                assert(p * 0 == 0);
            }
        }
        let q = rank / d;
        let r = rank % d;
        lemma_fundamental_div_mod(rank as int, d as int);
        assert(q < p) by (nonlinear_arith)
            requires
                rank < p * d,
                rank == d * q + r,
                0 <= r,
                d > 0,
        ;
        lemma_index_at(q, front);
        let u = index_at(q, front);
        let idx = index_at(rank, shape);
        assert(idx == u.push(r as usize));
        assert forall|i: int| 0 <= i < idx.len() implies #[trigger] idx[i] < shape[i] by {
            if i < n - 1 {
                assert(idx[i] == u[i]);
                assert(u[i] < front[i]);
            }
        }
        lemma_rank_ro_prefix(idx, u, shape, front, n - 1);
        lemma_mul_is_commutative(q as int, d as int);
    }
}

/// Every position of the storage of an array holds the element at an index
/// in bounds.
pub proof fn lemma_row_rank_surjective(rank: nat, shape: Seq<usize>)
    requires
        rank < shape_size(shape),
    ensures
        in_bounds(index_at(rank, shape), shape),
        row_rank(index_at(rank, shape), shape) == rank,
{
    lemma_prefix_size_all(shape);
    lemma_index_at(rank, shape);
}

} // verus!
