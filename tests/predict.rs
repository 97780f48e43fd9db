use xgboost::error::ErrorKind;
use xgboost::predict::{interaction_shape, isqrt, matrix_shape, shape_size, PredictConfig, PredictOption, PredictType};

#[test]
fn default_config_json() {
    assert_eq!(
        PredictConfig::default().as_json(),
        "{\"type\":0,\"training\":false,\"iteration_begin\":0,\"iteration_end\":0,\"strict_shape\":false}\0"
    );
}

#[test]
fn config_json_fields() {
    let c = PredictConfig {
        _type: PredictType::PredictLeafTraining,
        training: true,
        iteration_begin: -3,
        iteration_end: 120,
        strict_shape: true,
    };
    assert_eq!(
        c.as_json(),
        "{\"type\":6,\"training\":true,\"iteration_begin\":-3,\"iteration_end\":120,\"strict_shape\":true}\0"
    );
    let c = PredictConfig { _type: PredictType::PredictFeatureInteractions, iteration_begin: i64::MIN, ..Default::default() };
    assert_eq!(
        c.as_json(),
        "{\"type\":4,\"training\":false,\"iteration_begin\":-9223372036854775808,\"iteration_end\":0,\"strict_shape\":false}\0"
    );
}

#[test]
fn option_masks() {
    assert_eq!(PredictOption::options_as_mask(&[]), 0);
    assert_eq!(PredictOption::options_as_mask(&[PredictOption::OutputMargin]), 0x01);
    assert_eq!(PredictOption::options_as_mask(&[PredictOption::PredictLeaf]), 0x02);
    assert_eq!(PredictOption::options_as_mask(&[PredictOption::PredictContribitions]), 0x04);
    assert_eq!(PredictOption::options_as_mask(&[PredictOption::PredictInteractions]), 0x10);
    assert_eq!(
        PredictOption::options_as_mask(&[PredictOption::OutputMargin, PredictOption::PredictInteractions, PredictOption::OutputMargin]),
        0x11
    );
}

#[test]
fn leaf_and_contribution_shapes() {
    assert_eq!(matrix_shape(1611 * 15, 1611).unwrap(), (1611, 15));
    assert_eq!(matrix_shape(0, 3).unwrap(), (3, 0));
    let e = matrix_shape(10, 0).unwrap_err();
    assert_eq!(e.kind, ErrorKind::Validation);
}

#[test]
fn interaction_shapes() {
    assert_eq!(interaction_shape(1611 * 128 * 128, 1611).unwrap(), (1611, 128, 128));
    assert_eq!(interaction_shape(2 * 10, 2).unwrap(), (2, 3, 3));
    assert_eq!(interaction_shape(0, 5).unwrap(), (5, 0, 0));
    assert_eq!(interaction_shape(9, 0).unwrap_err().kind, ErrorKind::Validation);
}

#[test]
fn whole_square_roots() {
    assert_eq!(isqrt(0), 0);
    assert_eq!(isqrt(1), 1);
    assert_eq!(isqrt(15), 3);
    assert_eq!(isqrt(16), 4);
    assert_eq!(isqrt(u64::MAX), 4294967295);
}

#[test]
fn shape_sizes() {
    assert_eq!(shape_size(&[]), Some(1));
    assert_eq!(shape_size(&[1611]), Some(1611));
    assert_eq!(shape_size(&[2, 3, 4]), Some(24));
    assert_eq!(shape_size(&[u64::MAX, 2]), None);
    assert_eq!(shape_size(&[u64::MAX, 2, 0]), Some(0));
}
