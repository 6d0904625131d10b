use wham::error::ConfigError;
use wham::shape::{DatasetExtents, DatasetShape};

// One dimension of five bins, two windows.
fn two_windows() -> DatasetExtents {
    DatasetExtents {
        dimens: 1,
        num_bins: 5,
        num_bins_per_dim: vec![5],
        bin_width_len: 1,
        hist_min_len: 1,
        hist_max_len: 1,
        force_constant_len: 2,
        center_len: 2,
        histogram_lens: vec![5, 5],
    }
}

#[test]
fn a_consistent_dataset_is_accepted() {
    let shape = DatasetShape::check(&two_windows(), true).unwrap();
    assert_eq!(shape.num_bins(), 5);
    assert_eq!(shape.num_windows(), 2);
    assert_eq!(shape.grid().dimens(), 1);
    assert_eq!(shape.grid().expand_index(3), Some(vec![3]));
}

#[test]
fn a_two_dimensional_dataset_is_accepted() {
    let extents = DatasetExtents {
        dimens: 2,
        num_bins: 12,
        num_bins_per_dim: vec![3, 4],
        bin_width_len: 2,
        hist_min_len: 2,
        hist_max_len: 2,
        force_constant_len: 3,
        center_len: 3,
        histogram_lens: vec![12, 12, 12],
    };
    let shape = DatasetShape::check(&extents, true).unwrap();
    assert_eq!(shape.num_bins(), 12);
    assert_eq!(shape.num_windows(), 3);
    assert_eq!(shape.grid().expand_index(7), Some(vec![1, 3]));
}

#[test]
fn a_dataset_without_windows_is_accepted() {
    let mut extents = two_windows();
    extents.force_constant_len = 0;
    extents.center_len = 0;
    extents.histogram_lens = vec![];
    let shape = DatasetShape::check(&extents, true).unwrap();
    assert_eq!(shape.num_windows(), 0);
}

#[test]
fn no_dimensions_are_rejected() {
    let mut extents = two_windows();
    extents.dimens = 0;
    extents.num_bins = 1;
    extents.num_bins_per_dim = vec![];
    extents.bin_width_len = 0;
    extents.hist_min_len = 0;
    extents.hist_max_len = 0;
    extents.histogram_lens = vec![1, 1];
    assert_eq!(DatasetShape::check(&extents, true).err(), Some(ConfigError::NoDimensions));
}

#[test]
fn zero_bins_are_rejected() {
    let mut extents = two_windows();
    extents.num_bins = 0;
    extents.num_bins_per_dim = vec![0];
    extents.histogram_lens = vec![0, 0];
    assert_eq!(
        DatasetShape::check(&extents, true).err(),
        Some(ConfigError::ZeroBins { dim: 0 })
    );
}

#[test]
fn uncountable_bins_are_rejected() {
    let mut extents = two_windows();
    extents.dimens = 2;
    extents.num_bins_per_dim = vec![usize::MAX, 3];
    assert_eq!(DatasetShape::check(&extents, true).err(), Some(ConfigError::TooManyBins));
}

#[test]
fn a_wrong_number_of_dimensions_is_rejected() {
    let mut extents = two_windows();
    extents.dimens = 2;
    assert_eq!(
        DatasetShape::check(&extents, true).err(),
        Some(ConfigError::DimensionLengthMismatch)
    );
}

#[test]
fn per_dimension_sequences_of_the_wrong_length_are_rejected() {
    let mut extents = two_windows();
    extents.bin_width_len = 2;
    assert_eq!(
        DatasetShape::check(&extents, true).err(),
        Some(ConfigError::DimensionLengthMismatch)
    );
    let mut extents = two_windows();
    extents.hist_min_len = 0;
    assert_eq!(
        DatasetShape::check(&extents, true).err(),
        Some(ConfigError::DimensionLengthMismatch)
    );
    let mut extents = two_windows();
    extents.hist_max_len = 3;
    assert_eq!(
        DatasetShape::check(&extents, true).err(),
        Some(ConfigError::DimensionLengthMismatch)
    );
}

#[test]
fn a_wrong_total_is_rejected() {
    let mut extents = two_windows();
    extents.num_bins = 6;
    extents.histogram_lens = vec![6, 6];
    assert_eq!(DatasetShape::check(&extents, true).err(), Some(ConfigError::BinCountMismatch));
}

#[test]
fn per_window_sequences_of_the_wrong_length_are_rejected() {
    let mut extents = two_windows();
    extents.force_constant_len = 3;
    assert_eq!(
        DatasetShape::check(&extents, true).err(),
        Some(ConfigError::WindowLengthMismatch)
    );
    let mut extents = two_windows();
    extents.center_len = 1;
    assert_eq!(
        DatasetShape::check(&extents, true).err(),
        Some(ConfigError::WindowLengthMismatch)
    );
}

#[test]
fn a_histogram_of_the_wrong_length_is_rejected() {
    let mut extents = two_windows();
    extents.histogram_lens = vec![5, 4];
    assert_eq!(
        DatasetShape::check(&extents, true).err(),
        Some(ConfigError::HistogramLengthMismatch { window: 1 })
    );
    extents.histogram_lens = vec![6, 4];
    assert_eq!(
        DatasetShape::check(&extents, true).err(),
        Some(ConfigError::HistogramLengthMismatch { window: 0 })
    );
}

#[test]
fn a_thermal_energy_that_is_not_positive_is_rejected() {
    assert_eq!(
        DatasetShape::check(&two_windows(), false).err(),
        Some(ConfigError::NonPositiveThermalEnergy)
    );
    let kt: f64 = 300.0 * 0.0083144621;
    assert!(DatasetShape::check(&two_windows(), kt > 0.0).is_ok());
    assert!(DatasetShape::check(&two_windows(), 0.0_f64 > 0.0).is_err());
    assert!(DatasetShape::check(&two_windows(), f64::NAN > 0.0).is_err());
}

#[test]
fn faults_are_reported_in_a_fixed_order() {
    // Everything is wrong at once: the grid is reported first.
    let mut extents = DatasetExtents {
        dimens: 3,
        num_bins: 7,
        num_bins_per_dim: vec![5, 0],
        bin_width_len: 0,
        hist_min_len: 0,
        hist_max_len: 0,
        force_constant_len: 9,
        center_len: 8,
        histogram_lens: vec![1],
    };
    assert_eq!(
        DatasetShape::check(&extents, false).err(),
        Some(ConfigError::ZeroBins { dim: 1 })
    );
    extents.num_bins_per_dim = vec![5, 2];
    assert_eq!(
        DatasetShape::check(&extents, false).err(),
        Some(ConfigError::DimensionLengthMismatch)
    );
    extents.dimens = 2;
    extents.bin_width_len = 2;
    extents.hist_min_len = 2;
    extents.hist_max_len = 2;
    assert_eq!(DatasetShape::check(&extents, false).err(), Some(ConfigError::BinCountMismatch));
    extents.num_bins = 10;
    assert_eq!(
        DatasetShape::check(&extents, false).err(),
        Some(ConfigError::WindowLengthMismatch)
    );
    extents.force_constant_len = 1;
    extents.center_len = 1;
    assert_eq!(
        DatasetShape::check(&extents, false).err(),
        Some(ConfigError::HistogramLengthMismatch { window: 0 })
    );
    extents.histogram_lens = vec![10];
    assert_eq!(
        DatasetShape::check(&extents, false).err(),
        Some(ConfigError::NonPositiveThermalEnergy)
    );
    assert!(DatasetShape::check(&extents, true).is_ok());
}
