//! Exact nearest-neighbour search over fixed-dimension vectors: metric
//! selection, score ordering and top-k ranking, vector storage, quantized
//! storage, batch geometry for pooling and statistics, and a bounded result
//! cache.
//!
//! Components are generic over the vector component type or work on plain
//! integers; arithmetic on floating-point components is supplied by the
//! embedding program.

pub mod metric;
pub mod score_order;
pub mod ranking;
pub mod index;
pub mod compressed;
pub mod cache;
pub mod embeddings;
pub mod compressor;
pub mod text_match;
