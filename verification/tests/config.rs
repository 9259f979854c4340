use cdt_rs::{Config, ConfigError};

#[test]
fn build_accepts_documented_ranges() {
    let config = Config::build(Some(2), 32, 3).unwrap();
    assert_eq!(config.dimension, Some(2));
    assert_eq!(config.vertices, 32);
    assert_eq!(config.timeslices, 3);

    let config = Config::build(None, 3, 1).unwrap();
    assert_eq!(config.dimension, None);
    assert!(config.is_two_dimensional());
}

#[test]
fn build_rejects_dimension_out_of_range() {
    assert_eq!(Config::build(Some(5), 32, 3), Err(ConfigError::DimensionOutOfRange));
    assert_eq!(Config::build(Some(1), 32, 3), Err(ConfigError::DimensionOutOfRange));
    assert!(Config::build(Some(3), 32, 3).is_ok());
}

#[test]
fn build_rejects_too_few_vertices() {
    assert_eq!(Config::build(Some(2), 2, 3), Err(ConfigError::TooFewVertices));
    assert_eq!(Config::build(None, 0, 3), Err(ConfigError::TooFewVertices));
}

#[test]
fn build_rejects_zero_timeslices() {
    assert_eq!(Config::build(Some(2), 32, 0), Err(ConfigError::NoTimeslices));
}

#[test]
fn only_two_dimensions_supported() {
    assert!(Config::build(None, 32, 3).unwrap().is_two_dimensional());
    assert!(Config::build(Some(2), 32, 3).unwrap().is_two_dimensional());
    assert!(!Config::build(Some(3), 32, 3).unwrap().is_two_dimensional());
}
