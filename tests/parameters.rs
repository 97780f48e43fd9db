use std::collections::HashMap;
use xgboost::error::ErrorKind;
use xgboost::parameters::dart::{DartBoosterParameters, DartBoosterParametersBuilder, NormalizeType, SampleType};
use xgboost::parameters::linear::{LinearBoosterParameters, LinearUpdate};
use xgboost::parameters::Decimal;

fn pairs(v: &[(&str, &str)]) -> Vec<(String, String)> {
    v.iter().map(|(a, b)| (a.to_string(), b.to_string())).collect()
}

#[test]
fn dart_rate_drop_above_one_fails_validation() {
    let b = DartBoosterParametersBuilder::default().rate_drop(Decimal::new(15, 1));
    assert_eq!(b.validate(), Err("rate_drop must be within [0.0, 1.0]".to_owned()));
    let e = b.build().err().unwrap();
    assert_eq!(e.kind, ErrorKind::Validation);
    assert_eq!(e.desc, "rate_drop must be within [0.0, 1.0]");
}

#[test]
fn dart_skip_drop_above_one_fails_validation() {
    let b = DartBoosterParametersBuilder::default()
        .rate_drop(Decimal::new(1, 0))
        .skip_drop(Decimal::new(1001, 3));
    let e = b.build().err().unwrap();
    assert_eq!(e.kind, ErrorKind::Validation);
    assert_eq!(e.desc, "skip_drop must be within [0.0, 1.0]");
}

#[test]
fn dart_pairs_in_order() {
    let p = DartBoosterParametersBuilder::default()
        .sample_type(SampleType::Weighted)
        .normalize_type(NormalizeType::Forest)
        .rate_drop(Decimal::new(1, 1))
        .one_drop(true)
        .skip_drop(Decimal::new(5, 2))
        .build()
        .unwrap();
    assert_eq!(
        p.as_string_pairs(),
        pairs(&[
            ("booster", "dart"),
            ("sample_type", "weighted"),
            ("normalize_type", "forest"),
            ("rate_drop", "0.1"),
            ("one_drop", "1"),
            ("skip_drop", "0.05"),
        ])
    );
}

#[test]
fn dart_defaults() {
    let expected = pairs(&[
        ("booster", "dart"),
        ("sample_type", "uniform"),
        ("normalize_type", "tree"),
        ("rate_drop", "0"),
        ("one_drop", "0"),
        ("skip_drop", "0"),
    ]);
    assert_eq!(DartBoosterParameters::default().as_string_pairs(), expected);
    assert_eq!(DartBoosterParametersBuilder::default().build().unwrap().as_string_pairs(), expected);
}

#[test]
fn linear_pairs_in_order() {
    let p = LinearBoosterParameters { lambda: Decimal::new(25, 1), alpha: Decimal::whole(3), updater: LinearUpdate::CoordDescent };
    assert_eq!(
        p.as_string_pairs(),
        pairs(&[("booster", "gblinear"), ("lambda", "2.5"), ("alpha", "3"), ("updater", "coord_descent")])
    );
    assert_eq!(
        LinearBoosterParameters::default().as_string_pairs(),
        pairs(&[("booster", "gblinear"), ("lambda", "0"), ("alpha", "0"), ("updater", "shotgun")])
    );
}

#[test]
fn decimal_text() {
    assert_eq!(Decimal::new(15, 1).to_text(), "1.5");
    assert_eq!(Decimal::new(5, 2).to_text(), "0.05");
    assert_eq!(Decimal::new(50, 2).to_text(), "0.50");
    assert_eq!(Decimal::new(0, 0).to_text(), "0");
    assert_eq!(Decimal::new(1234, 0).to_text(), "1234");
    assert_eq!(Decimal::new(u64::MAX, 18).to_text(), "18.446744073709551615");
    assert!(Decimal::new(1000, 3).at_most_one());
    assert!(!Decimal::new(1001, 3).at_most_one());
}

#[test]
fn setting_params_twice_gives_the_same_table() {
    let p = DartBoosterParametersBuilder::default().rate_drop(Decimal::new(3, 1)).build().unwrap();
    let mut table: HashMap<String, String> = HashMap::new();
    table.insert("rate_drop".to_owned(), "0.9".to_owned());
    table.insert("eta".to_owned(), "0.3".to_owned());
    for (k, v) in p.as_string_pairs() {
        table.insert(k, v);
    }
    let once = table.clone();
    for (k, v) in p.as_string_pairs() {
        table.insert(k, v);
    }
    assert_eq!(table, once);
    assert_eq!(once["rate_drop"], "0.3");
    assert_eq!(once["eta"], "0.3");
}
