//! The vector index: an append-only collection of rows of one fixed
//! dimension, identified by insertion position, ranked against a query by
//! score keys.

use vstd::prelude::*;
use crate::metric::{DistanceMetric, higher_is_closer};
use crate::ranking::{is_top_k, keys_of, rank_scores};

verus! {

/// Why an index operation was refused.
#[derive(Debug, Clone, Copy, PartialEq, Eq, Structural)]
pub enum IndexError {
    /// A vector, query or flat batch has a length that disagrees with the
    /// index's dimension.
    DimensionMismatch { expected: usize, found: usize },
}

/// Row `i` of a flat buffer holding rows of `dim` components back to back.
pub open spec fn flat_row<T>(flat: Seq<T>, dim: int, i: int) -> Seq<T> {
    flat.subrange(i * dim, i * dim + dim)
}

/// The `count` rows of a flat buffer, in order.
pub open spec fn flat_rows<T>(flat: Seq<T>, dim: int, count: int) -> Seq<Seq<T>> {
    Seq::new(count as nat, |i: int| flat_row(flat, dim, i))
}

proof fn lemma_row_in_bounds(i: int, count: int, dim: int)
    requires
        0 <= i < count,
        0 <= dim,
    ensures
        0 <= i * dim,
        i * dim + dim <= count * dim,
{
    assert(0 <= i * dim) by (nonlinear_arith)
        requires
            0 <= i,
            0 <= dim,
    ;
    assert(i * dim + dim <= count * dim) by (nonlinear_arith)
        requires
            i < count,
            0 <= dim,
    ;
}

/// An exact nearest-neighbour index over rows of components of type `T`.
pub struct VectorIndex<T> {
    vectors: Vec<Vec<T>>,
    dimension: usize,
    metric: DistanceMetric,
}

impl<T: Copy> VectorIndex<T> {
    /// The stored rows; row `i` has identifier `i`.
    pub closed spec fn rows(&self) -> Seq<Seq<T>> {
        Seq::new(self.vectors@.len(), |i: int| self.vectors@[i]@)
    }

    /// The dimension every row has.
    pub closed spec fn dim(&self) -> nat {
        self.dimension as nat
    }

    /// The metric chosen at construction.
    pub closed spec fn metric_spec(&self) -> DistanceMetric {
        self.metric
    }

    /// Every stored row has the index's dimension.
    pub closed spec fn wf(&self) -> bool {
        forall|i: int| 0 <= i < self.vectors@.len() ==> #[trigger] self.vectors@[i]@.len() == self.dimension
    }

    /// An empty index for rows of `dimension` components scored by `metric`.
    pub fn new(dimension: usize, metric: DistanceMetric) -> (r: Self)
        ensures
            r.wf(),
            r.rows() == Seq::<Seq<T>>::empty(),
            r.dim() == dimension,
            r.metric_spec() == metric,
    {
        let r = VectorIndex { vectors: Vec::new(), dimension, metric };
        assert(r.rows() =~= Seq::<Seq<T>>::empty());
        r
    }

    fn copy_row(vector: &[T]) -> (r: Vec<T>)
        ensures
            r@ == vector@,
    {
        let mut row: Vec<T> = Vec::with_capacity(vector.len());
        let mut i: usize = 0;
        while i < vector.len()
            invariant
                i <= vector@.len(),
                row@ == vector@.subrange(0, i as int),
            decreases vector@.len() - i,
        {
            row.push(vector[i]);
            i += 1;
            assert(row@ =~= vector@.subrange(0, i as int));
        }
        assert(vector@.subrange(0, vector@.len() as int) =~= vector@);
        row
    }

    /// Appends a copy of `vector` and returns its identifier, the number of
    /// rows before the call. A vector of the wrong length is refused and the
    /// index is left as it was.
    ///
    /// Rows are stored as given: under a metric that `normalizes_input`,
    /// scaling to unit length is done by whoever computes on the components.
    pub fn add_vector(&mut self, vector: &[T]) -> (r: Result<usize, IndexError>)
        requires
            old(self).wf(),
        ensures
            final(self).wf(),
            final(self).dim() == old(self).dim(),
            final(self).metric_spec() == old(self).metric_spec(),
            vector@.len() != old(self).dim() ==> r == Err::<usize, IndexError>(
                IndexError::DimensionMismatch { expected: old(self).dim() as usize, found: vector@.len() as usize },
            ) && final(self).rows() == old(self).rows(),
            vector@.len() == old(self).dim() ==> r == Ok::<usize, IndexError>(old(self).rows().len() as usize)
                && final(self).rows() == old(self).rows().push(vector@),
    {
        if vector.len() != self.dimension {
            return Err(IndexError::DimensionMismatch { expected: self.dimension, found: vector.len() });
        }
        let row = Self::copy_row(vector);
        let ghost before = self.rows();
        self.vectors.push(row);
        assert(self.rows() =~= before.push(vector@));
        Ok(self.vectors.len() - 1)
    }

    /// Appends the `count` rows of a flat buffer, in order. The whole
    /// buffer's length is checked first: a buffer that does not hold exactly
    /// `count` rows is refused and the index is left as it was.
    pub fn add_vectors_batch(&mut self, vectors: &[T], count: usize) -> (r: Result<(), IndexError>)
        requires
            old(self).wf(),
        ensures
            final(self).wf(),
            final(self).dim() == old(self).dim(),
            final(self).metric_spec() == old(self).metric_spec(),
            vectors@.len() != count * old(self).dim() ==> r is Err && final(self).rows() == old(self).rows(),
            vectors@.len() == count * old(self).dim() ==> r is Ok && final(self).rows() == old(self).rows()
                + flat_rows(vectors@, old(self).dim() as int, count as int),
    {
        let dim = self.dimension;
        let found = vectors.len();
        let expected = count.checked_mul(dim);
        match expected {
            None => {
                assert(vectors@.len() != count * dim) by (nonlinear_arith)
                    requires
                        count * dim > usize::MAX,
                        vectors@.len() == found,
                ;
                return Err(IndexError::DimensionMismatch { expected: dim, found });
            },
            Some(total) => {
                if vectors.len() != total {
                    return Err(IndexError::DimensionMismatch { expected: total, found: vectors.len() });
                }
            },
        }
        let ghost before = self.rows();
        let mut i: usize = 0;
        while i < count
            invariant
                self.wf(),
                self.dimension == dim,
                self.metric == old(self).metric,
                vectors@.len() == count * dim,
                vectors@.len() == found,
                i <= count,
                before == old(self).rows(),
                self.rows() == before + flat_rows(vectors@, dim as int, i as int),
            decreases count - i,
        {
            proof {
                lemma_row_in_bounds(i as int, count as int, dim as int);
            }
            let start = i * dim;
            let row = Self::copy_row(&vectors[start..start + dim]);
            let ghost mid = self.rows();
            self.vectors.push(row);
            i += 1;
            assert(self.rows() =~= mid.push(flat_row(vectors@, dim as int, i - 1)));
            assert(flat_rows(vectors@, dim as int, i as int) =~= flat_rows(vectors@, dim as int, i - 1).push(
                flat_row(vectors@, dim as int, i - 1),
            ));
            assert(self.rows() =~= before + flat_rows(vectors@, dim as int, i as int));
        }
        Ok(())
    }

    /// Checks that a query has the index's dimension.
    pub fn check_query(&self, query: &[T]) -> (r: Result<(), IndexError>)
        ensures
            query@.len() == self.dim() ==> r is Ok,
            query@.len() != self.dim() ==> r == Err::<(), IndexError>(
                IndexError::DimensionMismatch { expected: self.dim() as usize, found: query@.len() as usize },
            ),
    {
        if query.len() != self.dimension {
            Err(IndexError::DimensionMismatch { expected: self.dimension, found: query.len() })
        } else {
            Ok(())
        }
    }

    /// The identifiers of the best `k` rows, best first, given each row's
    /// score against the query as an IEEE-754 single bit pattern: largest
    /// scores first for a similarity metric, smallest first for a distance
    /// metric, equal scores in insertion order. `k == 0` gives nothing, and
    /// a `k` of at least the number of rows gives every identifier.
    pub fn rank(&self, scores: &Vec<u32>, k: usize) -> (r: Vec<usize>)
        requires
            scores@.len() == self.rows().len(),
        ensures
            is_top_k(keys_of(scores@), higher_is_closer(self.metric_spec()), k as int, r@),
            k == 0 ==> r@.len() == 0,
            k >= self.rows().len() ==> r@.len() == self.rows().len() && forall|id: usize|
                id < self.rows().len() ==> #[trigger] r@.contains(id),
    {
        rank_scores(scores, self.metric.higher_is_better(), k)
    }

    /// The number of stored rows.
    pub fn size(&self) -> (r: usize)
        ensures
            r == self.rows().len(),
    {
        self.vectors.len()
    }

    /// The dimension every row has.
    pub fn dimension(&self) -> (r: usize)
        ensures
            r == self.dim(),
    {
        self.dimension
    }

    /// The metric chosen at construction.
    pub fn metric(&self) -> (r: DistanceMetric)
        ensures
            r == self.metric_spec(),
    {
        self.metric
    }

    /// Removes every row; dimension and metric stay.
    pub fn clear(&mut self)
        requires
            old(self).wf(),
        ensures
            final(self).wf(),
            final(self).rows() == Seq::<Seq<T>>::empty(),
            final(self).dim() == old(self).dim(),
            final(self).metric_spec() == old(self).metric_spec(),
    {
        self.vectors.clear();
        assert(self.rows() =~= Seq::<Seq<T>>::empty());
    }

    /// A copy of row `id`, or `None` past the last row.
    pub fn get_vector(&self, id: usize) -> (r: Option<Vec<T>>)
        ensures
            id < self.rows().len() ==> r is Some && r->Some_0@ == self.rows()[id as int],
            id >= self.rows().len() ==> r is None,
    {
        if id < self.vectors.len() {
            Some(Self::copy_row(self.vectors[id].as_slice()))
        } else {
            None
        }
    }
}

} // verus!
