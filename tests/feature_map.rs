use xgboost::error::ErrorKind;
use xgboost::feature_map::{parse_u32, FeatureMap, FeatureType};

fn lines(v: &[&str]) -> Vec<String> {
    v.iter().map(|s| s.to_string()).collect()
}

#[test]
fn feature_map_reads_and_writes_lines_by_index() {
    let fm = FeatureMap::from_lines(&lines(&["3\tincome\tint", "0\tage\tint", "1\tis-parent?=yes\ti", "2\theight\tq"]))
        .unwrap();
    assert_eq!(
        fm.to_lines(),
        vec!["0\tage\tint", "1\tis-parent?=yes\ti", "2\theight\tq", "3\tincome\tint"]
    );
}

#[test]
fn feature_map_later_line_replaces_index() {
    let fm = FeatureMap::from_lines(&lines(&["0\ta\ti", "0\tb\tq"])).unwrap();
    assert_eq!(fm.to_lines(), vec!["0\tb\tq"]);
}

#[test]
fn feature_map_empty() {
    let fm = FeatureMap::from_lines(&Vec::new()).unwrap();
    assert!(fm.to_lines().is_empty());
}

#[test]
fn feature_map_fifth_line_with_two_fields() {
    let e = FeatureMap::from_lines(&lines(&[
        "0\ta\ti",
        "1\tb\ti",
        "2\tc\tq",
        "3\td\tint",
        "4\te",
        "5\tf\ti",
    ]))
    .err()
    .unwrap();
    assert_eq!(e.kind, ErrorKind::Parse);
    assert_eq!(e.desc, "Unable to parse features from line 5, expected 3 tab separated values");
}

#[test]
fn feature_map_bad_index() {
    let e = FeatureMap::from_lines(&lines(&["0\ta\ti", "x\tb\ti"])).err().unwrap();
    assert_eq!(e.kind, ErrorKind::Parse);
    assert_eq!(e.desc, "Unable to parse features from line 2, could not parse feature number");
    let e = FeatureMap::from_lines(&lines(&["4294967296\ta\ti"])).err().unwrap();
    assert_eq!(e.desc, "Unable to parse features from line 1, could not parse feature number");
}

#[test]
fn feature_map_bad_type() {
    let e = FeatureMap::from_lines(&lines(&["0\ta\tfloat"])).err().unwrap();
    assert_eq!(e.kind, ErrorKind::Parse);
    assert_eq!(
        e.desc,
        "Unable to parse features from line 1: unrecognised feature type 'float', must be one of: 'i', 'q', 'int'"
    );
}

#[test]
fn feature_type_codes() {
    assert_eq!(FeatureType::parse("i"), Ok(FeatureType::Binary));
    assert_eq!(FeatureType::parse("q"), Ok(FeatureType::Quantitative));
    assert_eq!("int".parse::<FeatureType>(), Ok(FeatureType::Integer));
    assert_eq!(
        FeatureType::parse("x"),
        Err("unrecognised feature type 'x', must be one of: 'i', 'q', 'int'".to_owned())
    );
    assert_eq!(FeatureType::Integer.code(), "int");
    assert_eq!(FeatureType::Binary.code(), "i");
}

#[test]
fn unsigned_numbers() {
    let c = |s: &str| s.chars().collect::<Vec<char>>();
    assert_eq!(parse_u32(&c("0")), Some(0));
    assert_eq!(parse_u32(&c("+17")), Some(17));
    assert_eq!(parse_u32(&c("4294967295")), Some(u32::MAX));
    assert_eq!(parse_u32(&c("4294967296")), None);
    assert_eq!(parse_u32(&c("")), None);
    assert_eq!(parse_u32(&c("+")), None);
    assert_eq!(parse_u32(&c("-1")), None);
    assert_eq!(parse_u32(&c("1a")), None);
}

#[test]
fn feature_map_lines_read_back() {
    let fm = FeatureMap::from_lines(&lines(&["10\tz\tq", "+2\ty\tint", "007\tx\ti"])).unwrap();
    let written = fm.to_lines();
    assert_eq!(written, vec!["2\ty\tint", "7\tx\ti", "10\tz\tq"]);
    let again = FeatureMap::from_lines(&written).unwrap();
    assert_eq!(again.to_lines(), written);
}
