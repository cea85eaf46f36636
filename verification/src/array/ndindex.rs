//! Stepping a multi-dimensional index through a shape, and turning it into a
//! storage position.

use vstd::prelude::*;
use crate::array::shape::{
    all_zero, col_rank, dot, in_bounds, lemma_prefix_size_all, lemma_rank_co_bound,
    lemma_rank_ro_agree, lemma_rank_ro_bound, lemma_zero_rank_co, lemma_zero_rank_ro, position,
    prefix_size, rank_co, rank_ro, row_rank, shape_size, suffix_size,
};

verus! {

/// Row-major successor over the first `n` coordinates: the coordinate `n - 1`
/// is incremented, and on reaching its dimension length it is reset to 0 and
/// the carry goes to the coordinate before it.
pub open spec fn inc_ro_spec(idx: Seq<usize>, shape: Seq<usize>, n: int) -> Seq<usize>
    decreases n,
{
    if n <= 0 {
        idx
    } else if idx[n - 1] + 1 < shape[n - 1] {
        idx.update(n - 1, (idx[n - 1] + 1) as usize)
    } else {
        inc_ro_spec(idx.update(n - 1, 0), shape, n - 1)
    }
}

/// Row-major predecessor over the first `n` coordinates: the coordinate
/// `n - 1` is decremented, and at 0 it wraps to its dimension length minus 1
/// and the borrow goes to the coordinate before it.
pub open spec fn dec_ro_spec(idx: Seq<usize>, shape: Seq<usize>, n: int) -> Seq<usize>
    decreases n,
{
    if n <= 0 {
        idx
    } else if idx[n - 1] == 0 {
        dec_ro_spec(idx.update(n - 1, (shape[n - 1] - 1) as usize), shape, n - 1)
    } else {
        idx.update(n - 1, (idx[n - 1] - 1) as usize)
    }
}

/// Column-major successor over the coordinates from `from` on: the
/// coordinate `from` is incremented, and the carry goes to the one after it.
pub open spec fn inc_co_spec(idx: Seq<usize>, shape: Seq<usize>, from: int) -> Seq<usize>
    decreases idx.len() - from,
{
    if from < 0 || from >= idx.len() {
        idx
    } else if idx[from] + 1 < shape[from] {
        idx.update(from, (idx[from] + 1) as usize)
    } else {
        inc_co_spec(idx.update(from, 0), shape, from + 1)
    }
}

/// Column-major predecessor over the coordinates from `from` on.
pub open spec fn dec_co_spec(idx: Seq<usize>, shape: Seq<usize>, from: int) -> Seq<usize>
    decreases idx.len() - from,
{
    if from < 0 || from >= idx.len() {
        idx
    } else if idx[from] == 0 {
        dec_co_spec(idx.update(from, (shape[from] - 1) as usize), shape, from + 1)
    } else {
        idx.update(from, (idx[from] - 1) as usize)
    }
}

/// The row-major successor of a whole index.
pub open spec fn next_ro(idx: Seq<usize>, shape: Seq<usize>) -> Seq<usize> {
    inc_ro_spec(idx, shape, idx.len() as int)
}

/// The column-major successor of a whole index.
pub open spec fn next_co(idx: Seq<usize>, shape: Seq<usize>) -> Seq<usize> {
    inc_co_spec(idx, shape, 0)
}

/// The row-major predecessor of a whole index.
pub open spec fn prev_ro(idx: Seq<usize>, shape: Seq<usize>) -> Seq<usize> {
    dec_ro_spec(idx, shape, idx.len() as int)
}

/// The column-major predecessor of a whole index.
pub open spec fn prev_co(idx: Seq<usize>, shape: Seq<usize>) -> Seq<usize> {
    dec_co_spec(idx, shape, 0)
}

/// Helper functions on a multi-dimensional index, one coordinate per
/// dimension.
pub trait NDIndex {
    /// The coordinates of the index.
    spec fn coords(&self) -> Seq<usize>;

    /// Steps to the next index in row-major order; after the last index of
    /// the shape the index is all zeros again.
    fn inc_ro(&mut self, shape: &[usize])
        requires
            old(self).coords().len() == shape@.len(),
            forall|i: int| 0 <= i < shape@.len() ==> old(self).coords()[i] < usize::MAX,
        ensures
            final(self).coords() == next_ro(old(self).coords(), shape@),
    ;

    /// Steps to the previous index in row-major order; before the all-zero
    /// index comes the last index of the shape.
    fn dec_ro(&mut self, shape: &[usize])
        requires
            old(self).coords().len() == shape@.len(),
            forall|i: int| 0 <= i < shape@.len() ==> shape@[i] > 0,
        ensures
            final(self).coords() == prev_ro(old(self).coords(), shape@),
    ;

    /// Steps to the next index in column-major order; after the last index
    /// of the shape the index is all zeros again.
    fn inc_co(&mut self, shape: &[usize])
        requires
            old(self).coords().len() == shape@.len(),
            forall|i: int| 0 <= i < shape@.len() ==> old(self).coords()[i] < usize::MAX,
        ensures
            final(self).coords() == next_co(old(self).coords(), shape@),
    ;

    /// Steps to the previous index in column-major order.
    fn dec_co(&mut self, shape: &[usize])
        requires
            old(self).coords().len() == shape@.len(),
            forall|i: int| 0 <= i < shape@.len() ==> shape@[i] > 0,
        ensures
            final(self).coords() == prev_co(old(self).coords(), shape@),
    ;

    /// Tells whether every coordinate is 0.
    fn is_zero(&mut self) -> (r: bool)
        ensures
            r == all_zero(old(self).coords()),
            final(self).coords() == old(self).coords(),
    ;

    /// The storage position of the index: the sum of each coordinate times
    /// the stride of its dimension. Every coordinate is below the length of
    /// its dimension.
    fn to_pos(&self, shape: &[usize], strides: &[usize]) -> (pos: usize)
        requires
            self.coords().len() <= shape@.len(),
            self.coords().len() <= strides@.len(),
            forall|i: int| 0 <= i < self.coords().len() ==> #[trigger] self.coords()[i] < shape@[i],
            position(self.coords(), strides@) <= usize::MAX,
        ensures
            pos == position(self.coords(), strides@),
    ;
}

impl NDIndex for [usize] {
    open spec fn coords(&self) -> Seq<usize> {
        self@
    }

    fn inc_ro(&mut self, shape: &[usize]) {
        let ghost start = self@;
        let mut i: usize = self.len();
        let mut done = false;
        while i > 0 && !done
            invariant
                i <= self@.len(),
                self@.len() == shape@.len(),
                forall|k: int| 0 <= k < i ==> self@[k] < usize::MAX,
                done ==> self@ == next_ro(start, shape@),
                !done ==> inc_ro_spec(self@, shape@, i as int) == next_ro(start, shape@),
            decreases i + (if done { 0int } else { 1int }),
        {
            let v: usize = self[i - 1] + 1;
            if v >= shape[i - 1] {
                self[i - 1] = 0;
                i -= 1;
            } else {
                self[i - 1] = v;
                done = true;
            }
        }
    }

    fn dec_ro(&mut self, shape: &[usize]) {
        let ghost start = self@;
        let mut i: usize = self.len();
        let mut done = false;
        while i > 0 && !done
            invariant
                i <= self@.len(),
                self@.len() == shape@.len(),
                forall|k: int| 0 <= k < shape@.len() ==> shape@[k] > 0,
                done ==> self@ == prev_ro(start, shape@),
                !done ==> dec_ro_spec(self@, shape@, i as int) == prev_ro(start, shape@),
            decreases i + (if done { 0int } else { 1int }),
        {
            if self[i - 1] == 0 {
                self[i - 1] = shape[i - 1] - 1;
                i -= 1;
            } else {
                self[i - 1] = self[i - 1] - 1;
                done = true;
            }
        }
    }

    fn inc_co(&mut self, shape: &[usize]) {
        let ghost start = self@;
        let mut i: usize = 0;
        let mut done = false;
        while i < self.len() && !done
            invariant
                i <= self@.len(),
                self@.len() == shape@.len(),
                forall|k: int| i <= k < self@.len() ==> self@[k] < usize::MAX,
                done ==> self@ == next_co(start, shape@),
                !done ==> inc_co_spec(self@, shape@, i as int) == next_co(start, shape@),
            decreases self@.len() - i + (if done { 0int } else { 1int }),
        {
            let v: usize = self[i] + 1;
            if v >= shape[i] {
                self[i] = 0;
                i += 1;
            } else {
                self[i] = v;
                done = true;
            }
        }
    }

    fn dec_co(&mut self, shape: &[usize]) {
        let ghost start = self@;
        let mut i: usize = 0;
        let mut done = false;
        while i < self.len() && !done
            invariant
                i <= self@.len(),
                self@.len() == shape@.len(),
                forall|k: int| 0 <= k < shape@.len() ==> shape@[k] > 0,
                done ==> self@ == prev_co(start, shape@),
                !done ==> dec_co_spec(self@, shape@, i as int) == prev_co(start, shape@),
            decreases self@.len() - i + (if done { 0int } else { 1int }),
        {
            if self[i] == 0 {
                self[i] = shape[i] - 1;
                i += 1;
            } else {
                self[i] = self[i] - 1;
                done = true;
            }
        }
    }

    fn is_zero(&mut self) -> (r: bool) {
        let mut i: usize = 0;
        while i < self.len()
            invariant
                i <= self@.len(),
                self@ == old(self)@,
                forall|j: int| 0 <= j < i ==> self@[j] == 0,
            decreases self@.len() - i,
        {
            if self[i] != 0 {
                return false;
            }
            i += 1;
        }
        true
    }

    fn to_pos(&self, shape: &[usize], strides: &[usize]) -> (pos: usize) {
        assert(self.coords() == self@);
        let mut pos: usize = 0;
        let mut i: usize = 0;
        while i < self.len()
            invariant
                i <= self@.len(),
                self@.len() <= shape@.len(),
                self@.len() <= strides@.len(),
                pos == dot(self@, strides@, i as int),
                position(self@, strides@) <= usize::MAX,
            decreases self@.len() - i,
        {
            proof {
                lemma_dot_monotonic(self@, strides@, i + 1, self@.len() as int);
            }
            pos = pos + self[i] * strides[i];
            i += 1;
        }
        pos
    }
}

/// The partial sums of a position grow with the number of dimensions taken.
pub proof fn lemma_dot_monotonic(idx: Seq<usize>, strides: Seq<usize>, m: int, n: int)
    requires
        0 <= m <= n,
    ensures
        dot(idx, strides, m) <= dot(idx, strides, n),
    decreases n - m,
{
    if m < n {
        lemma_dot_monotonic(idx, strides, m, n - 1);
        assert(idx[n - 1] as nat * strides[n - 1] as nat >= 0) by (nonlinear_arith);
    }
}

/// The column-major rank of the coordinates from `from` on depends on them
/// alone.
pub proof fn lemma_rank_co_frame(a: Seq<usize>, b: Seq<usize>, shape: Seq<usize>, from: int)
    requires
        a.len() == b.len(),
        forall|k: int| from <= k < a.len() ==> a[k] == b[k],
    ensures
        rank_co(a, shape, from) == rank_co(b, shape, from),
    decreases a.len() - from,
{
    if 0 <= from < a.len() {
        lemma_rank_co_frame(a, b, shape, from + 1);
    }
}

/// A row-major step over the first `n` coordinates of an index in bounds
/// stays in bounds, leaves the other coordinates alone, and either raises
/// the rank of those `n` coordinates by one or, from the last of them,
/// resets them all to 0.
pub proof fn lemma_inc_ro(idx: Seq<usize>, shape: Seq<usize>, n: int)
    requires
        in_bounds(idx, shape),
        0 <= n <= shape.len(),
    ensures
        in_bounds(inc_ro_spec(idx, shape, n), shape),
        forall|k: int| n <= k < shape.len() ==> #[trigger] inc_ro_spec(idx, shape, n)[k] == idx[k],
        rank_ro(idx, shape, n) + 1 < prefix_size(shape, n) ==> rank_ro(
            inc_ro_spec(idx, shape, n),
            shape,
            n,
        ) == rank_ro(idx, shape, n) + 1,
        rank_ro(idx, shape, n) + 1 >= prefix_size(shape, n) ==> (forall|k: int|
            0 <= k < n ==> #[trigger] inc_ro_spec(idx, shape, n)[k] == 0),
    decreases n,
{
    if n > 0 {
        let d = shape[n - 1] as int;
        let q = rank_ro(idx, shape, n - 1) as int;
        let p = prefix_size(shape, n - 1) as int;
        assert(idx[n - 1] < shape[n - 1]);
        lemma_rank_ro_bound(idx, shape, n - 1);
        if idx[n - 1] + 1 < shape[n - 1] {
            let r = idx.update(n - 1, (idx[n - 1] + 1) as usize);
            assert(in_bounds(r, shape));
            lemma_rank_ro_agree(idx, r, shape, n - 1);
            assert(q * d + idx[n - 1] + 1 < p * d) by (nonlinear_arith)
                requires
                    0 <= q < p,
                    0 <= idx[n - 1] + 1 < d,
            ;
        } else {
            let z = idx.update(n - 1, 0);
            assert(in_bounds(z, shape));
            lemma_inc_ro(z, shape, n - 1);
            let r = inc_ro_spec(z, shape, n - 1);
            lemma_rank_ro_agree(idx, z, shape, n - 1);
            assert(r[n - 1] == 0);
            if q + 1 < p {
                assert(rank_ro(r, shape, n) == (q + 1) * d + 0);
                assert((q + 1) * d == q * d + d) by (nonlinear_arith);
                assert((q + 1) * d < p * d) by (nonlinear_arith)
                    requires
                        q + 1 < p,
                        0 < d,
                ;
            } else {
                assert(q + 1 == p);
                assert((q + 1) * d == q * d + d) by (nonlinear_arith);
            }
        }
    }
}

/// A column-major step over the coordinates from `from` on of an index in
/// bounds stays in bounds, leaves the other coordinates alone, and either
/// raises the rank of those coordinates by one or, from the last of them,
/// resets them all to 0.
pub proof fn lemma_inc_co(idx: Seq<usize>, shape: Seq<usize>, from: int)
    requires
        in_bounds(idx, shape),
        0 <= from <= shape.len(),
    ensures
        in_bounds(inc_co_spec(idx, shape, from), shape),
        forall|k: int| 0 <= k < from ==> #[trigger] inc_co_spec(idx, shape, from)[k] == idx[k],
        rank_co(idx, shape, from) + 1 < suffix_size(shape, from) ==> rank_co(
            inc_co_spec(idx, shape, from),
            shape,
            from,
        ) == rank_co(idx, shape, from) + 1,
        rank_co(idx, shape, from) + 1 >= suffix_size(shape, from) ==> (forall|k: int|
            from <= k < shape.len() ==> #[trigger] inc_co_spec(idx, shape, from)[k] == 0),
    decreases shape.len() - from,
{
    if from < shape.len() {
        let d = shape[from] as int;
        let q = rank_co(idx, shape, from + 1) as int;
        let p = suffix_size(shape, from + 1) as int;
        assert(idx[from] < shape[from]);
        lemma_rank_co_bound(idx, shape, from + 1);
        if idx[from] + 1 < shape[from] {
            let r = idx.update(from, (idx[from] + 1) as usize);
            assert(in_bounds(r, shape));
            lemma_rank_co_frame(idx, r, shape, from + 1);
            assert(idx[from] + 1 + d * q < d * p) by (nonlinear_arith)
                requires
                    0 <= q < p,
                    0 <= idx[from] + 1 < d,
            ;
        } else {
            let z = idx.update(from, 0);
            assert(in_bounds(z, shape));
            lemma_inc_co(z, shape, from + 1);
            let r = inc_co_spec(z, shape, from + 1);
            lemma_rank_co_frame(idx, z, shape, from + 1);
            assert(r[from] == 0);
            if q + 1 < p {
                assert(rank_co(r, shape, from) == 0 + d * (q + 1));
                assert(d * (q + 1) == d * q + d) by (nonlinear_arith);
                assert(d * (q + 1) < d * p) by (nonlinear_arith)
                    requires
                        q + 1 < p,
                        0 < d,
                ;
            } else {
                assert(q + 1 == p);
                assert(d * (q + 1) == d * q + d) by (nonlinear_arith);
            }
        }
    }
}

/// Row-major stepping counts: from an index in bounds that is not the last
/// one, the step leads to the index in bounds whose rank is one more, which
/// is not all zeros; from the last one it leads to the all-zero index. So a
/// traversal that starts at the all-zero index and steps until the index is
/// all zeros again visits every index of the shape once, in rank order.
pub proof fn lemma_next_ro(idx: Seq<usize>, shape: Seq<usize>)
    requires
        in_bounds(idx, shape),
    ensures
        in_bounds(next_ro(idx, shape), shape),
        row_rank(idx, shape) < shape_size(shape),
        row_rank(idx, shape) + 1 < shape_size(shape) ==> row_rank(next_ro(idx, shape), shape)
            == row_rank(idx, shape) + 1 && !all_zero(next_ro(idx, shape)),
        row_rank(idx, shape) + 1 == shape_size(shape) ==> all_zero(next_ro(idx, shape)),
{
    let n = shape.len() as int;
    lemma_inc_ro(idx, shape, n);
    lemma_rank_ro_bound(idx, shape, n);
    lemma_prefix_size_all(shape);
    let r = next_ro(idx, shape);
    if all_zero(r) {
        lemma_zero_rank_ro(r, shape, n);
    }
}

/// Column-major stepping counts in the same way as row-major stepping, by
/// the column-major rank.
pub proof fn lemma_next_co(idx: Seq<usize>, shape: Seq<usize>)
    requires
        in_bounds(idx, shape),
    ensures
        in_bounds(next_co(idx, shape), shape),
        col_rank(idx, shape) < shape_size(shape),
        col_rank(idx, shape) + 1 < shape_size(shape) ==> col_rank(next_co(idx, shape), shape)
            == col_rank(idx, shape) + 1 && !all_zero(next_co(idx, shape)),
        col_rank(idx, shape) + 1 == shape_size(shape) ==> all_zero(next_co(idx, shape)),
{
    lemma_inc_co(idx, shape, 0);
    lemma_rank_co_bound(idx, shape, 0);
    let r = next_co(idx, shape);
    if all_zero(r) {
        lemma_zero_rank_co(r, shape, 0);
    }
}

/// Stepping back over the first `n` coordinates and setting a later
/// coordinate can be done in either order.
pub proof fn lemma_dec_ro_frame(idx: Seq<usize>, shape: Seq<usize>, n: int, k: int, v: usize)
    requires
        0 <= n <= k < idx.len(),
    ensures
        dec_ro_spec(idx.update(k, v), shape, n) == dec_ro_spec(idx, shape, n).update(k, v),
    decreases n,
{
    if n > 0 {
        let u = idx.update(k, v);
        if idx[n - 1] == 0 {
            let w = (shape[n - 1] - 1) as usize;
            assert(u.update(n - 1, w) =~= idx.update(n - 1, w).update(k, v));
            lemma_dec_ro_frame(idx.update(n - 1, w), shape, n - 1, k, v);
        } else {
            let w = (idx[n - 1] - 1) as usize;
            assert(u.update(n - 1, w) =~= idx.update(n - 1, w).update(k, v));
        }
    }
}

/// Stepping back over the coordinates from `from` on and setting an
/// earlier coordinate can be done in either order.
pub proof fn lemma_dec_co_frame(idx: Seq<usize>, shape: Seq<usize>, from: int, k: int, v: usize)
    requires
        0 <= k < from <= idx.len(),
    ensures
        dec_co_spec(idx.update(k, v), shape, from) == dec_co_spec(idx, shape, from).update(k, v),
    decreases idx.len() - from,
{
    if from < idx.len() {
        let u = idx.update(k, v);
        if idx[from] == 0 {
            let w = (shape[from] - 1) as usize;
            assert(u.update(from, w) =~= idx.update(from, w).update(k, v));
            lemma_dec_co_frame(idx.update(from, w), shape, from + 1, k, v);
        } else {
            let w = (idx[from] - 1) as usize;
            assert(u.update(from, w) =~= idx.update(from, w).update(k, v));
        }
    }
}

/// A row-major step back over the first `n` coordinates of an index in
/// bounds stays in bounds and leaves the other coordinates alone.
pub proof fn lemma_dec_ro(idx: Seq<usize>, shape: Seq<usize>, n: int)
    requires
        in_bounds(idx, shape),
        0 <= n <= shape.len(),
    ensures
        in_bounds(dec_ro_spec(idx, shape, n), shape),
        forall|k: int| n <= k < shape.len() ==> #[trigger] dec_ro_spec(idx, shape, n)[k] == idx[k],
    decreases n,
{
    if n > 0 {
        assert(idx[n - 1] < shape[n - 1]);
        if idx[n - 1] == 0 {
            let z = idx.update(n - 1, (shape[n - 1] - 1) as usize);
            assert(in_bounds(z, shape));
            lemma_dec_ro(z, shape, n - 1);
        } else {
            assert(in_bounds(idx.update(n - 1, (idx[n - 1] - 1) as usize), shape));
        }
    }
}

/// A column-major step back over the coordinates from `from` on of an index
/// in bounds stays in bounds and leaves the other coordinates alone.
pub proof fn lemma_dec_co(idx: Seq<usize>, shape: Seq<usize>, from: int)
    requires
        in_bounds(idx, shape),
        0 <= from <= shape.len(),
    ensures
        in_bounds(dec_co_spec(idx, shape, from), shape),
        forall|k: int| 0 <= k < from ==> #[trigger] dec_co_spec(idx, shape, from)[k] == idx[k],
    decreases shape.len() - from,
{
    if from < shape.len() {
        assert(idx[from] < shape[from]);
        if idx[from] == 0 {
            let z = idx.update(from, (shape[from] - 1) as usize);
            assert(in_bounds(z, shape));
            lemma_dec_co(z, shape, from + 1);
        } else {
            assert(in_bounds(idx.update(from, (idx[from] - 1) as usize), shape));
        }
    }
}

/// Over the first `n` coordinates of an index in bounds, a row-major step
/// back undoes a step forward, and a step forward undoes a step back.
pub proof fn lemma_inc_dec_ro(idx: Seq<usize>, shape: Seq<usize>, n: int)
    requires
        in_bounds(idx, shape),
        0 <= n <= shape.len(),
    ensures
        dec_ro_spec(inc_ro_spec(idx, shape, n), shape, n) == idx,
        inc_ro_spec(dec_ro_spec(idx, shape, n), shape, n) == idx,
    decreases n,
{
    if n > 0 {
        let d = shape[n - 1];
        assert(idx[n - 1] < d);
        if idx[n - 1] + 1 < d {
            let r = idx.update(n - 1, (idx[n - 1] + 1) as usize);
            assert(r.update(n - 1, (r[n - 1] - 1) as usize) =~= idx);
        } else {
            let z = idx.update(n - 1, 0);
            assert(in_bounds(z, shape));
            lemma_inc_ro(z, shape, n - 1);
            let r = inc_ro_spec(z, shape, n - 1);
            assert(r[n - 1] == z[n - 1]);
            lemma_dec_ro_frame(r, shape, n - 1, n - 1, (d - 1) as usize);
            lemma_inc_dec_ro(z, shape, n - 1);
            assert(z.update(n - 1, (d - 1) as usize) =~= idx);
        }
        if idx[n - 1] == 0 {
            let z = idx.update(n - 1, (d - 1) as usize);
            assert(in_bounds(z, shape));
            lemma_dec_ro(z, shape, n - 1);
            let r = dec_ro_spec(z, shape, n - 1);
            assert(r[n - 1] == z[n - 1]);
            lemma_dec_ro_frame(z, shape, n - 1, n - 1, 0);
            assert(z.update(n - 1, 0) =~= idx);
            lemma_inc_dec_ro(idx, shape, n - 1);
        } else {
            let r = idx.update(n - 1, (idx[n - 1] - 1) as usize);
            assert(r.update(n - 1, (r[n - 1] + 1) as usize) =~= idx);
        }
    }
}

/// Over the coordinates from `from` on of an index in bounds, a
/// column-major step back undoes a step forward, and a step forward undoes
/// a step back.
pub proof fn lemma_inc_dec_co(idx: Seq<usize>, shape: Seq<usize>, from: int)
    requires
        in_bounds(idx, shape),
        0 <= from <= shape.len(),
    ensures
        dec_co_spec(inc_co_spec(idx, shape, from), shape, from) == idx,
        inc_co_spec(dec_co_spec(idx, shape, from), shape, from) == idx,
    decreases shape.len() - from,
{
    if from < shape.len() {
        let d = shape[from];
        assert(idx[from] < d);
        if idx[from] + 1 < d {
            let r = idx.update(from, (idx[from] + 1) as usize);
            assert(r.update(from, (r[from] - 1) as usize) =~= idx);
        } else {
            let z = idx.update(from, 0);
            assert(in_bounds(z, shape));
            lemma_inc_co(z, shape, from + 1);
            let r = inc_co_spec(z, shape, from + 1);
            assert(r[from] == z[from]);
            lemma_dec_co_frame(r, shape, from + 1, from, (d - 1) as usize);
            lemma_inc_dec_co(z, shape, from + 1);
            assert(z.update(from, (d - 1) as usize) =~= idx);
        }
        if idx[from] == 0 {
            let z = idx.update(from, (d - 1) as usize);
            assert(in_bounds(z, shape));
            lemma_dec_co(z, shape, from + 1);
            let r = dec_co_spec(z, shape, from + 1);
            assert(r[from] == z[from]);
            lemma_dec_co_frame(z, shape, from + 1, from, 0);
            assert(z.update(from, 0) =~= idx);
            lemma_inc_dec_co(idx, shape, from + 1);
        } else {
            let r = idx.update(from, (idx[from] - 1) as usize);
            assert(r.update(from, (r[from] + 1) as usize) =~= idx);
        }
    }
}

/// The steps back are the inverses of the steps forward: from an index in
/// bounds, in either order, a step forward and then a step back, or a step
/// back and then a step forward, lead to the index again.
pub proof fn lemma_steps_are_inverse(idx: Seq<usize>, shape: Seq<usize>)
    requires
        in_bounds(idx, shape),
    ensures
        in_bounds(prev_ro(idx, shape), shape),
        in_bounds(prev_co(idx, shape), shape),
        prev_ro(next_ro(idx, shape), shape) == idx,
        next_ro(prev_ro(idx, shape), shape) == idx,
        prev_co(next_co(idx, shape), shape) == idx,
        next_co(prev_co(idx, shape), shape) == idx,
{
    let n = shape.len() as int;
    lemma_inc_ro(idx, shape, n);
    lemma_inc_co(idx, shape, 0);
    lemma_dec_ro(idx, shape, n);
    lemma_dec_co(idx, shape, 0);
    lemma_inc_dec_ro(idx, shape, n);
    lemma_inc_dec_co(idx, shape, 0);
}

} // verus!
