use xgboost::report::progress_line;

fn entries(v: &[(&str, &str, &str)]) -> Vec<(String, String, String)> {
    v.iter().map(|(a, b, c)| (a.to_string(), b.to_string(), c.to_string())).collect()
}

#[test]
fn progress_by_metric_then_dataset() {
    let e = entries(&[
        ("train", "logloss", "0.5"),
        ("train", "error", "0.1"),
        ("test", "logloss", "0.6"),
        ("test", "error", "0.2"),
    ]);
    assert_eq!(
        progress_line(3, &e),
        "[3]\ttest-error:0.2\ttrain-error:0.1\ttest-logloss:0.6\ttrain-logloss:0.5"
    );
}

#[test]
fn progress_repeated_pair_shows_later_score() {
    let e = entries(&[("train", "auc", "0.7"), ("custom", "train", "1"), ("train", "auc", "0.8")]);
    assert_eq!(progress_line(0, &e), "[0]\ttrain-auc:0.8\tcustom-train:1");
}

#[test]
fn progress_without_entries() {
    assert_eq!(progress_line(-1, &Vec::new()), "[-1]");
}

#[test]
fn progress_prefix_names_sort_first() {
    let e = entries(&[("train2", "rmse", "1"), ("train", "rmse", "2"), ("train", "rms", "3")]);
    assert_eq!(progress_line(9, &e), "[9]\ttrain-rms:3\ttrain-rmse:2\ttrain2-rmse:1");
}
