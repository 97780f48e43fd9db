use xgboost::booster::{not_found, save_buffer_config, validate_gradients};
use xgboost::error::ErrorKind;

#[test]
fn unequal_gradient_and_hessian_lengths() {
    let e = validate_gradients(3, 2).unwrap_err();
    assert_eq!(e.kind, ErrorKind::Validation);
    assert_eq!(e.desc, "Mismatch between length of gradient and hessian arrays (3 != 2)");
    assert!(validate_gradients(0, 0).is_ok());
    assert!(validate_gradients(1611, 1611).is_ok());
    assert_eq!(validate_gradients(0, 1).unwrap_err().kind, ErrorKind::Validation);
}

#[test]
fn missing_model_file() {
    let e = not_found("/tmp/model.ubj");
    assert_eq!(e.kind, ErrorKind::NotFound);
    assert_eq!(e.desc, "File not found: /tmp/model.ubj");
}

#[test]
fn buffer_formats() {
    assert_eq!(save_buffer_config(true), "{\"format\":\"ubj\"}");
    assert_eq!(save_buffer_config(false), "{\"format\":\"json\"}");
}
