use meta_media_search::embeddings::{
    batch_row_count, reduce_dimensions, EmbeddingConfig, EmbeddingError, EmbeddingGenerator,
    PoolingStrategy,
};

#[test]
fn test_embedding_generator_creation() {
    let config = EmbeddingConfig::new(768);
    let generator: EmbeddingGenerator<f32> = EmbeddingGenerator::new(config);
    assert_eq!(generator.cache_size(), 0);
}

#[test]
fn test_cache_management() {
    let config = EmbeddingConfig::new(3);
    let mut generator: EmbeddingGenerator<f32> = EmbeddingGenerator::new(config);
    assert_eq!(generator.cache_size(), 0);
    generator.set_cache_enabled(false);
    assert_eq!(generator.cache_size(), 0);
    assert!(!generator.cache_enabled());
    generator.clear_cache();
    assert_eq!(generator.cache_size(), 0);
}

#[test]
fn config_defaults_and_setters() {
    let mut config = EmbeddingConfig::new(4);
    assert_eq!(config.dimension(), 4);
    assert!(config.normalize());
    assert_eq!(config.pooling_strategy(), PoolingStrategy::Mean);
    config.set_normalize(false);
    config.set_pooling_strategy(PoolingStrategy::Max);
    assert!(!config.normalize());
    assert_eq!(config.pooling_strategy(), PoolingStrategy::Max);
}

#[test]
fn pool_input_must_hold_count_rows() {
    let generator: EmbeddingGenerator<f32> = EmbeddingGenerator::new(EmbeddingConfig::new(3));
    assert_eq!(generator.check_pool_input(6, 2), Ok(()));
    assert_eq!(
        generator.check_pool_input(5, 2),
        Err(EmbeddingError::InvalidBatchSize { dimension: 3, found: 5 })
    );
    assert_eq!(
        generator.check_pool_input(6, usize::MAX),
        Err(EmbeddingError::InvalidBatchSize { dimension: 3, found: 6 })
    );
}

#[test]
fn batch_row_counts() {
    assert_eq!(batch_row_count(9, 3), Ok(3));
    assert_eq!(batch_row_count(0, 3), Ok(0));
    assert_eq!(batch_row_count(10, 3), Err(EmbeddingError::InvalidBatchSize { dimension: 3, found: 10 }));
    assert_eq!(batch_row_count(4, 0), Err(EmbeddingError::InvalidBatchSize { dimension: 0, found: 4 }));
}

#[test]
fn test_reduce_dimensions() {
    let embeddings = vec![
        1.0, 2.0, 3.0, 4.0,
        5.0, 6.0, 7.0, 8.0,
    ];
    let reduced = reduce_dimensions(&embeddings, 4, 2).unwrap();
    assert_eq!(reduced.len(), 4);
    assert_eq!(reduced[0], 1.0);
    assert_eq!(reduced[1], 2.0);
    assert_eq!(reduced[2], 5.0);
    assert_eq!(reduced[3], 6.0);
}

#[test]
fn reduce_dimensions_errors() {
    let embeddings = vec![1.0f32, 2.0, 3.0];
    assert_eq!(
        reduce_dimensions(&embeddings, 2, 3),
        Err(EmbeddingError::TargetDimensionTooLarge { original: 2, target: 3 })
    );
    assert_eq!(
        reduce_dimensions(&embeddings, 2, 1),
        Err(EmbeddingError::InvalidBatchSize { dimension: 2, found: 3 })
    );
    assert_eq!(reduce_dimensions(&embeddings, 3, 0), Ok(vec![]));
}
