use meta_media_search::metric::{same_text, ConfigError, DistanceMetric};

#[test]
fn metric_names_in_any_case() {
    assert_eq!(DistanceMetric::from_name("cosine"), Ok(DistanceMetric::Cosine));
    assert_eq!(DistanceMetric::from_name("Euclidean"), Ok(DistanceMetric::Euclidean));
    assert_eq!(DistanceMetric::from_name("MANHATTAN"), Ok(DistanceMetric::Manhattan));
    assert_eq!(DistanceMetric::from_name("DotProduct"), Ok(DistanceMetric::DotProduct));
}

#[test]
fn unknown_metric_name_is_refused() {
    assert_eq!(DistanceMetric::from_name("hamming"), Err(ConfigError::UnknownMetric));
    assert_eq!(DistanceMetric::from_name("dot_product"), Err(ConfigError::UnknownMetric));
    assert_eq!(DistanceMetric::from_name(""), Err(ConfigError::UnknownMetric));
}

#[test]
fn lowercase_name_lookup_is_exact() {
    assert_eq!(DistanceMetric::from_lowercase_name("cosine"), Ok(DistanceMetric::Cosine));
    assert_eq!(DistanceMetric::from_lowercase_name("Cosine"), Err(ConfigError::UnknownMetric));
}

#[test]
fn sort_direction_and_normalization_per_metric() {
    assert!(DistanceMetric::Cosine.higher_is_better());
    assert!(DistanceMetric::DotProduct.higher_is_better());
    assert!(!DistanceMetric::Euclidean.higher_is_better());
    assert!(!DistanceMetric::Manhattan.higher_is_better());
    assert!(DistanceMetric::Cosine.normalizes_input());
    assert!(!DistanceMetric::DotProduct.normalizes_input());
}

#[test]
fn text_equality_is_by_character() {
    assert!(same_text("héllo", "héllo"));
    assert!(!same_text("hello", "hellO"));
    assert!(!same_text("hell", "hello"));
}
