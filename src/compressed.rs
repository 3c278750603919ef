//! Quantized vector storage: rows of one byte per component, kept back to
//! back in a single buffer, row-major by vector then dimension.

use vstd::prelude::*;
use crate::index::flat_row;

verus! {

/// Why a store operation was refused.
#[derive(Debug, Clone, Copy, PartialEq, Eq, Structural)]
pub enum StoreError {
    /// A row's length disagrees with the store's dimension.
    DimensionMismatch { expected: usize, found: usize },
    /// The identifier is not below the number of stored rows.
    IndexOutOfBounds { id: usize, count: usize },
}

/// Smallest and largest accepted compression factor.
pub const MIN_COMPRESSION_FACTOR: u8 = 1;
pub const MAX_COMPRESSION_FACTOR: u8 = 8;

/// `f` clamped to the accepted range of compression factors.
pub open spec fn clamp_factor(f: u8) -> u8 {
    if f < MIN_COMPRESSION_FACTOR {
        MIN_COMPRESSION_FACTOR
    } else if f > MAX_COMPRESSION_FACTOR {
        MAX_COMPRESSION_FACTOR
    } else {
        f
    }
}

/// A store of quantized rows: each component is one unsigned byte.
///
/// The compression factor is recorded, clamped, and reserved: every
/// component takes eight bits whatever its value.
pub struct CompressedVectorStore {
    vectors: Vec<u8>,
    dimension: usize,
    count: usize,
    compression_factor: u8,
}

impl CompressedVectorStore {
    /// The buffer of all rows, back to back.
    pub closed spec fn bytes(&self) -> Seq<u8> {
        self.vectors@
    }

    /// The number of components per row.
    pub closed spec fn dim(&self) -> nat {
        self.dimension as nat
    }

    /// The number of stored rows.
    pub closed spec fn len(&self) -> nat {
        self.count as nat
    }

    /// The clamped compression factor.
    pub closed spec fn factor(&self) -> u8 {
        self.compression_factor
    }

    /// The buffer holds exactly `count` rows of `dimension` bytes.
    pub closed spec fn wf(&self) -> bool {
        self.vectors@.len() == self.count * self.dimension
    }

    /// An empty store for rows of `dimension` components; the factor is
    /// clamped to `1..=8`.
    pub fn new(dimension: usize, compression_factor: u8) -> (r: Self)
        ensures
            r.wf(),
            r.bytes() == Seq::<u8>::empty(),
            r.len() == 0,
            r.dim() == dimension,
            r.factor() == clamp_factor(compression_factor),
    {
        let factor = if compression_factor < MIN_COMPRESSION_FACTOR {
            MIN_COMPRESSION_FACTOR
        } else if compression_factor > MAX_COMPRESSION_FACTOR {
            MAX_COMPRESSION_FACTOR
        } else {
            compression_factor
        };
        CompressedVectorStore { vectors: Vec::new(), dimension, count: 0, compression_factor: factor }
    }

    /// Appends one quantized row. A row of the wrong length is refused and
    /// the store is left as it was.
    pub fn add_quantized(&mut self, row: &[u8]) -> (r: Result<(), StoreError>)
        requires
            old(self).wf(),
            old(self).len() < usize::MAX,
        ensures
            final(self).wf(),
            final(self).dim() == old(self).dim(),
            final(self).factor() == old(self).factor(),
            row@.len() != old(self).dim() ==> r == Err::<(), StoreError>(
                StoreError::DimensionMismatch { expected: old(self).dim() as usize, found: row@.len() as usize },
            ) && final(self).bytes() == old(self).bytes() && final(self).len() == old(self).len(),
            row@.len() == old(self).dim() ==> r is Ok && final(self).bytes() == old(self).bytes() + row@
                && final(self).len() == old(self).len() + 1,
    {
        if row.len() != self.dimension {
            return Err(StoreError::DimensionMismatch { expected: self.dimension, found: row.len() });
        }
        let ghost before = self.vectors@;
        let mut i: usize = 0;
        while i < row.len()
            invariant
                i <= row@.len(),
                row@.len() == self.dimension,
                self.count == old(self).count,
                self.dimension == old(self).dimension,
                self.compression_factor == old(self).compression_factor,
                self.count < usize::MAX,
                before == old(self).vectors@,
                before.len() == self.count * self.dimension,
                self.vectors@ == before + row@.subrange(0, i as int),
            decreases row@.len() - i,
        {
            self.vectors.push(row[i]);
            i += 1;
            assert(self.vectors@ =~= before + row@.subrange(0, i as int));
        }
        assert(row@.subrange(0, row@.len() as int) =~= row@);
        self.count = self.count + 1;
        assert(self.vectors@.len() == self.count * self.dimension) by (nonlinear_arith)
            requires
                self.vectors@.len() == before.len() + self.dimension,
                before.len() == (self.count - 1) * self.dimension,
        ;
        Ok(())
    }

    /// The quantized bytes of row `id`.
    pub fn get_quantized(&self, id: usize) -> (r: Result<Vec<u8>, StoreError>)
        requires
            self.wf(),
        ensures
            id >= self.len() ==> r == Err::<Vec<u8>, StoreError>(
                StoreError::IndexOutOfBounds { id, count: self.len() as usize },
            ),
            id < self.len() ==> r is Ok && r->Ok_0@ == flat_row(self.bytes(), self.dim() as int, id as int),
    {
        if id >= self.count {
            return Err(StoreError::IndexOutOfBounds { id, count: self.count });
        }
        let dim = self.dimension;
        let total = self.vectors.len();
        assert(id * dim + dim <= self.count * dim) by (nonlinear_arith)
            requires
                id < self.count,
        ;
        assert(0 <= id * dim) by (nonlinear_arith);
        let start = id * dim;
        let mut row: Vec<u8> = Vec::with_capacity(dim);
        let mut j: usize = 0;
        while j < dim
            invariant
                start == id * dim,
                start + dim <= self.vectors@.len(),
                total == self.vectors@.len(),
                j <= dim,
                row@ == self.vectors@.subrange(start as int, start + j),
            decreases dim - j,
        {
            row.push(self.vectors[start + j]);
            j += 1;
            assert(row@ =~= self.vectors@.subrange(start as int, start + j));
        }
        Ok(row)
    }

    /// Bytes held by the buffer: one per stored component.
    pub fn memory_usage(&self) -> (r: usize)
        requires
            self.wf(),
        ensures
            r == self.len() * self.dim(),
            r == self.bytes().len(),
    {
        self.vectors.len()
    }

    /// The number of stored rows.
    pub fn count(&self) -> (r: usize)
        ensures
            r == self.len(),
    {
        self.count
    }

    /// The number of components per row.
    pub fn dimension(&self) -> (r: usize)
        ensures
            r == self.dim(),
    {
        self.dimension
    }

    /// The clamped compression factor.
    pub fn compression_factor(&self) -> (r: u8)
        ensures
            r == self.factor(),
    {
        self.compression_factor
    }
}

} // verus!
