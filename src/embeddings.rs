//! Embedding batches: pooling configuration, the geometry of flat batches
//! of rows, and dimension reduction by truncation.

use vstd::prelude::*;
use crate::index::flat_row;

verus! {

/// How a batch of rows is combined into one row.
#[derive(Debug, Clone, Copy, PartialEq, Eq, Structural)]
pub enum PoolingStrategy {
    /// Per-dimension arithmetic mean.
    Mean,
    /// Per-dimension maximum.
    Max,
    /// Per-dimension sum.
    Sum,
    /// Weighted mean; with no weights supplied, the plain mean.
    Weighted,
}

/// Why a batch was refused.
#[derive(Debug, Clone, Copy, PartialEq, Eq, Structural)]
pub enum EmbeddingError {
    /// The flat buffer does not hold a whole number of rows of the
    /// declared dimension, or not the declared number of rows.
    InvalidBatchSize { dimension: usize, found: usize },
    /// A reduction was asked to widen rows.
    TargetDimensionTooLarge { original: usize, target: usize },
}

/// Whether a flat buffer of `len` components splits into whole rows of
/// `dim` components (an empty row width splits nothing).
pub open spec fn splits_into_rows(len: int, dim: int) -> bool {
    dim > 0 && len % dim == 0
}

/// The number of rows of `dim` components in a flat buffer of `len`
/// components, or the batch-size error.
pub fn batch_row_count(len: usize, dimension: usize) -> (r: Result<usize, EmbeddingError>)
    ensures
        splits_into_rows(len as int, dimension as int) ==> r == Ok::<usize, EmbeddingError>(
            (len / dimension) as usize,
        ),
        !splits_into_rows(len as int, dimension as int) ==> r == Err::<usize, EmbeddingError>(
            EmbeddingError::InvalidBatchSize { dimension, found: len },
        ),
{
    if dimension == 0 || len % dimension != 0 {
        Err(EmbeddingError::InvalidBatchSize { dimension, found: len })
    } else {
        Ok(len / dimension)
    }
}

/// Settings for combining embeddings: row width, whether pooled rows are
/// scaled to unit length, and the pooling strategy.
#[derive(Debug, Clone, Copy, PartialEq, Eq, Structural)]
pub struct EmbeddingConfig {
    dimension: usize,
    normalize: bool,
    pooling_strategy: PoolingStrategy,
}

impl EmbeddingConfig {
    pub closed spec fn dim(&self) -> nat {
        self.dimension as nat
    }

    pub closed spec fn normalizes(&self) -> bool {
        self.normalize
    }

    pub closed spec fn strategy(&self) -> PoolingStrategy {
        self.pooling_strategy
    }

    /// Rows of `dimension` components, mean pooling, unit-length results.
    pub fn new(dimension: usize) -> (r: Self)
        ensures
            r.dim() == dimension,
            r.normalizes(),
            r.strategy() == PoolingStrategy::Mean,
    {
        EmbeddingConfig { dimension, normalize: true, pooling_strategy: PoolingStrategy::Mean }
    }

    pub fn dimension(&self) -> (r: usize)
        ensures
            r == self.dim(),
    {
        self.dimension
    }

    pub fn normalize(&self) -> (r: bool)
        ensures
            r == self.normalizes(),
    {
        self.normalize
    }

    pub fn pooling_strategy(&self) -> (r: PoolingStrategy)
        ensures
            r == self.strategy(),
    {
        self.pooling_strategy
    }

    pub fn set_normalize(&mut self, normalize: bool)
        ensures
            final(self).normalizes() == normalize,
            final(self).dim() == old(self).dim(),
            final(self).strategy() == old(self).strategy(),
    {
        self.normalize = normalize;
    }

    pub fn set_pooling_strategy(&mut self, strategy: PoolingStrategy)
        ensures
            final(self).strategy() == strategy,
            final(self).dim() == old(self).dim(),
            final(self).normalizes() == old(self).normalizes(),
    {
        self.pooling_strategy = strategy;
    }

    /// Checks that a flat buffer of `len` components holds exactly `count`
    /// rows of this configuration's dimension.
    pub fn check_batch(&self, len: usize, count: usize) -> (r: Result<(), EmbeddingError>)
        ensures
            r is Ok == (len == count * self.dim()),
            r is Err ==> r == Err::<(), EmbeddingError>(
                EmbeddingError::InvalidBatchSize { dimension: self.dim() as usize, found: len },
            ),
    {
        match count.checked_mul(self.dimension) {
            Some(total) => {
                if total == len {
                    Ok(())
                } else {
                    Err(EmbeddingError::InvalidBatchSize { dimension: self.dimension, found: len })
                }
            },
            None => {
                assert(len != count * self.dim()) by (nonlinear_arith)
                    requires
                        count * self.dim() > usize::MAX,
                        len <= usize::MAX,
                ;
                Err(EmbeddingError::InvalidBatchSize { dimension: self.dimension, found: len })
            },
        }
    }
}

/// Pools embeddings under an `EmbeddingConfig`, with a cache of
/// embeddings by text that can be switched off.
pub struct EmbeddingGenerator<T> {
    config: EmbeddingConfig,
    cache: Vec<(String, Vec<T>)>,
    cache_enabled: bool,
}

impl<T> EmbeddingGenerator<T> {
    pub closed spec fn config_spec(&self) -> EmbeddingConfig {
        self.config
    }

    /// The number of cached embeddings.
    pub closed spec fn cached(&self) -> nat {
        self.cache@.len()
    }

    pub closed spec fn caching(&self) -> bool {
        self.cache_enabled
    }

    /// A generator with an empty cache, caching switched on.
    pub fn new(config: EmbeddingConfig) -> (r: Self)
        ensures
            r.config_spec() == config,
            r.cached() == 0,
            r.caching(),
    {
        EmbeddingGenerator { config, cache: Vec::new(), cache_enabled: true }
    }

    /// Switches caching on or off; switching it off empties the cache.
    pub fn set_cache_enabled(&mut self, enabled: bool)
        ensures
            final(self).caching() == enabled,
            final(self).config_spec() == old(self).config_spec(),
            !enabled ==> final(self).cached() == 0,
            enabled ==> final(self).cached() == old(self).cached(),
    {
        self.cache_enabled = enabled;
        if !enabled {
            self.cache.clear();
        }
    }

    /// Empties the cache.
    pub fn clear_cache(&mut self)
        ensures
            final(self).cached() == 0,
            final(self).caching() == old(self).caching(),
            final(self).config_spec() == old(self).config_spec(),
    {
        self.cache.clear();
    }

    /// The number of cached embeddings.
    pub fn cache_size(&self) -> (r: usize)
        ensures
            r == self.cached(),
    {
        self.cache.len()
    }

    pub fn cache_enabled(&self) -> (r: bool)
        ensures
            r == self.caching(),
    {
        self.cache_enabled
    }

    pub fn config(&self) -> (r: EmbeddingConfig)
        ensures
            r == self.config_spec(),
    {
        self.config
    }

    /// Checks the input of a pooling: a flat buffer of `len` components
    /// must hold exactly `count` rows of the configured dimension.
    pub fn check_pool_input(&self, len: usize, count: usize) -> (r: Result<(), EmbeddingError>)
        ensures
            r is Ok == (len == count * self.config_spec().dim()),
            r is Err ==> r == Err::<(), EmbeddingError>(
                EmbeddingError::InvalidBatchSize { dimension: self.config_spec().dim() as usize, found: len },
            ),
    {
        self.config.check_batch(len, count)
    }
}

/// The first `target` components of each of the first `count` rows of
/// width `width`, back to back.
pub open spec fn truncated_rows<T>(flat: Seq<T>, width: int, target: int, count: int) -> Seq<T>
    decreases count,
{
    if count <= 0 {
        Seq::empty()
    } else {
        truncated_rows(flat, width, target, count - 1) + flat_row(flat, width, count - 1).take(target)
    }
}

/// Keeps the first `target_dim` components of every row of a flat batch of
/// rows of `original_dim` components. Fails when `target_dim` exceeds
/// `original_dim`, and when the batch is not whole rows.
pub fn reduce_dimensions<T: Copy>(embeddings: &[T], original_dim: usize, target_dim: usize) -> (r: Result<
    Vec<T>,
    EmbeddingError,
>)
    ensures
        target_dim > original_dim ==> r == Err::<Vec<T>, EmbeddingError>(
            EmbeddingError::TargetDimensionTooLarge { original: original_dim, target: target_dim },
        ),
        target_dim <= original_dim && !splits_into_rows(embeddings@.len() as int, original_dim as int) ==> r
            == Err::<Vec<T>, EmbeddingError>(
            EmbeddingError::InvalidBatchSize { dimension: original_dim, found: embeddings@.len() as usize },
        ),
        target_dim <= original_dim && splits_into_rows(embeddings@.len() as int, original_dim as int) ==> r is Ok
            && r->Ok_0@ == truncated_rows(
            embeddings@,
            original_dim as int,
            target_dim as int,
            embeddings@.len() as int / original_dim as int,
        ),
{
    if target_dim > original_dim {
        return Err(EmbeddingError::TargetDimensionTooLarge { original: original_dim, target: target_dim });
    }
    let count = match batch_row_count(embeddings.len(), original_dim) {
        Ok(c) => c,
        Err(e) => {
            return Err(e);
        },
    };
    let total = embeddings.len();
    assert(total == count * original_dim) by (nonlinear_arith)
        requires
            original_dim > 0,
            total % original_dim == 0,
            count == total / original_dim,
    ;
    let mut result: Vec<T> = Vec::new();
    let mut i: usize = 0;
    while i < count
        invariant
            total == embeddings@.len(),
            total == count * original_dim,
            target_dim <= original_dim,
            i <= count,
            result@ == truncated_rows(embeddings@, original_dim as int, target_dim as int, i as int),
        decreases count - i,
    {
        assert(i * original_dim + original_dim <= count * original_dim) by (nonlinear_arith)
            requires
                i < count,
        ;
        assert(0 <= i * original_dim) by (nonlinear_arith);
        let start = i * original_dim;
        let ghost row = flat_row(embeddings@, original_dim as int, i as int);
        let ghost before = result@;
        let mut j: usize = 0;
        while j < target_dim
            invariant
                total == embeddings@.len(),
                start == i * original_dim,
                start + original_dim <= total,
                target_dim <= original_dim,
                j <= target_dim,
                row == flat_row(embeddings@, original_dim as int, i as int),
                result@ == before + row.take(j as int),
            decreases target_dim - j,
        {
            result.push(embeddings[start + j]);
            j += 1;
            assert(result@ =~= before + row.take(j as int));
        }
        i += 1;
    }
    Ok(result)
}

} // verus!
