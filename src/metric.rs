//! Distance metrics: which one an index uses, how its scores are ordered,
//! and how a metric is chosen by name.

use vstd::prelude::*;

verus! {

/// The policy that scores a stored vector against a query.
#[derive(Debug, Clone, Copy, PartialEq, Eq, Structural)]
pub enum DistanceMetric {
    /// Dot product of unit-length vectors.
    Cosine,
    /// Square root of the summed squared differences.
    Euclidean,
    /// Sum of the absolute differences.
    Manhattan,
    /// Plain dot product.
    DotProduct,
}

/// Why a configuration could not be built.
#[derive(Debug, Clone, Copy, PartialEq, Eq, Structural)]
pub enum ConfigError {
    /// The metric name is none of `cosine`, `euclidean`, `manhattan`, `dotproduct`.
    UnknownMetric,
}

/// Scores of a similarity metric rank higher-is-closer; those of a distance
/// metric rank lower-is-closer.
pub open spec fn higher_is_closer(m: DistanceMetric) -> bool {
    m == DistanceMetric::Cosine || m == DistanceMetric::DotProduct
}

/// Only cosine scoring works on unit-length copies of the vectors.
pub open spec fn works_on_unit_vectors(m: DistanceMetric) -> bool {
    m == DistanceMetric::Cosine
}

/// The metric that an already lower-cased name selects.
pub open spec fn metric_named(s: Seq<char>) -> Option<DistanceMetric> {
    if s == "cosine"@ {
        Some(DistanceMetric::Cosine)
    } else if s == "euclidean"@ {
        Some(DistanceMetric::Euclidean)
    } else if s == "manhattan"@ {
        Some(DistanceMetric::Manhattan)
    } else if s == "dotproduct"@ {
        Some(DistanceMetric::DotProduct)
    } else {
        None
    }
}

/// The lower-case form of a text, as Unicode defines it.
pub uninterp spec fn lower_of(s: Seq<char>) -> Seq<char>;

/// Relies on `str::to_lowercase`: the result depends on the characters alone.
#[verifier::external_body]
pub(crate) fn lowercase(s: &str) -> (r: String)
    ensures
        r@ == lower_of(s@),
{
    s.to_lowercase()
}

/// Character-by-character equality of two texts.
pub fn same_text(a: &str, b: &str) -> (r: bool)
    ensures
        r == (a@ == b@),
{
    let n = a.unicode_len();
    if n != b.unicode_len() {
        return false;
    }
    let mut i: usize = 0;
    while i < n
        invariant
            n == a@.len(),
            n == b@.len(),
            i <= n,
            forall|j: int| 0 <= j < i ==> a@[j] == b@[j],
        decreases n - i,
    {
        if a.get_char(i) != b.get_char(i) {
            return false;
        }
        i += 1;
    }
    assert(a@ =~= b@);
    true
}

impl DistanceMetric {
    /// True for the similarity metrics, whose best scores are the largest.
    pub fn higher_is_better(&self) -> (r: bool)
        ensures
            r == higher_is_closer(*self),
    {
        match self {
            DistanceMetric::Cosine => true,
            DistanceMetric::DotProduct => true,
            DistanceMetric::Euclidean => false,
            DistanceMetric::Manhattan => false,
        }
    }

    /// True when stored and query vectors are scaled to unit length first.
    pub fn normalizes_input(&self) -> (r: bool)
        ensures
            r == works_on_unit_vectors(*self),
    {
        match self {
            DistanceMetric::Cosine => true,
            _ => false,
        }
    }

    /// The metric named by a text that is already in lower case.
    pub fn from_lowercase_name(name: &str) -> (r: Result<DistanceMetric, ConfigError>)
        ensures
            r == match metric_named(name@) {
                Some(m) => Ok::<DistanceMetric, ConfigError>(m),
                None => Err(ConfigError::UnknownMetric),
            },
    {
        if same_text(name, "cosine") {
            Ok(DistanceMetric::Cosine)
        } else if same_text(name, "euclidean") {
            Ok(DistanceMetric::Euclidean)
        } else if same_text(name, "manhattan") {
            Ok(DistanceMetric::Manhattan)
        } else if same_text(name, "dotproduct") {
            Ok(DistanceMetric::DotProduct)
        } else {
            Err(ConfigError::UnknownMetric)
        }
    }

    /// The metric named by `name`, in any letter case.
    pub fn from_name(name: &str) -> (r: Result<DistanceMetric, ConfigError>)
        ensures
            r == match metric_named(lower_of(name@)) {
                Some(m) => Ok::<DistanceMetric, ConfigError>(m),
                None => Err(ConfigError::UnknownMetric),
            },
    {
        let lowered = lowercase(name);
        DistanceMetric::from_lowercase_name(lowered.as_str())
    }
}

} // verus!
