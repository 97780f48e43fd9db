use indexmap::IndexMap;
use xgboost::error::ErrorKind;
use xgboost::eval;

fn scores(parsed: IndexMap<String, IndexMap<String, String>>) -> IndexMap<String, IndexMap<String, f32>> {
    let mut out = IndexMap::new();
    for (name, metrics) in parsed {
        let mut m = IndexMap::new();
        for (metric, score) in metrics {
            m.insert(metric, score.parse::<f32>().unwrap());
        }
        out.insert(name, m);
    }
    out
}

#[test]
fn parse_eval_string() {
    let s = "[0]\ttrain-map@4-:0.5\ttrain-logloss:1.0\ttest-map@4-:0.25\ttest-logloss:0.75";
    let mut metrics = IndexMap::new();

    let mut train_metrics = IndexMap::new();
    train_metrics.insert("map@4-".to_owned(), 0.5);
    train_metrics.insert("logloss".to_owned(), 1.0);

    let mut test_metrics = IndexMap::new();
    test_metrics.insert("map@4-".to_owned(), 0.25);
    test_metrics.insert("logloss".to_owned(), 0.75);

    metrics.insert("train".to_owned(), train_metrics);
    metrics.insert("test".to_owned(), test_metrics);
    assert_eq!(scores(super_parse(s, &["train", "test"])), metrics);
}

fn super_parse(s: &str, names: &[&str]) -> IndexMap<String, IndexMap<String, String>> {
    eval::parse_eval_string(s, names).unwrap()
}

#[test]
fn eval_keeps_score_text_and_order() {
    let r = super_parse("[3]\ttest-auc:0.9\ttrain-auc:0.8", &["train", "test"]);
    let keys: Vec<&String> = r.keys().collect();
    assert_eq!(keys, vec!["test", "train"]);
    assert_eq!(r["test"]["auc"], "0.9");
    assert_eq!(r["train"]["auc"], "0.8");
}

#[test]
fn eval_name_prefix_needs_dash() {
    let r = super_parse("[0]\ttrain2-rmse:1.5\ttrain-rmse:2.5", &["train", "train2"]);
    assert_eq!(r.len(), 2);
    assert_eq!(r["train"].len(), 1);
    assert_eq!(r["train"]["rmse"], "2.5");
    assert_eq!(r["train2"]["rmse"], "1.5");
}

#[test]
fn eval_repeated_metric_keeps_place_takes_later_score() {
    let r = super_parse("[0]\tdefault-a:1\tdefault-b:2\tdefault-a:3", &["default"]);
    let entries: Vec<(&String, &String)> = r["default"].iter().collect();
    assert_eq!(entries.len(), 2);
    assert_eq!(entries[0], (&"a".to_owned(), &"3".to_owned()));
    assert_eq!(entries[1], (&"b".to_owned(), &"2".to_owned()));
}

#[test]
fn eval_unknown_names_and_first_token_are_skipped() {
    let r = super_parse("train-x:1\tother-x:2", &["train"]);
    assert!(r.is_empty());
    let r = super_parse("", &["train"]);
    assert!(r.is_empty());
}

#[test]
fn eval_two_colons_is_a_parse_error() {
    let line = "[0]\ttrain-error@0.5:x:0.1";
    let e = eval::parse_eval_string(line, &["train"]).unwrap_err();
    assert_eq!(e.kind, ErrorKind::Parse);
    assert_eq!(e.desc, format!("Unable to parse evaluation line: {}", line));
}

#[test]
fn eval_missing_colon_is_a_parse_error() {
    let e = eval::parse_eval_string("[0]\ttrain-logloss", &["train"]).unwrap_err();
    assert_eq!(e.kind, ErrorKind::Parse);
}
