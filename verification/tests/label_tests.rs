use limit_analysis::label_cardinality::{label_cardinality_distribution, CardinalityOutcome};
use limit_analysis::label_min_examples::{label_min_examples_distribution, MinExamplesError};
use limit_analysis::label_stats::{get_label_stats, is_label_column_exec, LabelFrequencies};
use limit_analysis::models::{ColumnStats, DatasetStatsId, DatasetStatsResponse, StatsRow, StringLabelStats};

fn id(d: &str, c: &str, s: &str) -> DatasetStatsId {
    DatasetStatsId { dataset: d.to_string(), config: c.to_string(), split: s.to_string() }
}

fn label_col(name: &str, n_unique: i64, freqs: &[(&str, i64)]) -> ColumnStats {
    ColumnStats {
        column_name: name.to_string(),
        column_type: "string_label".to_string(),
        string_label: Ok(StringLabelStats {
            nan_count: 0,
            n_unique,
            frequencies: freqs.iter().map(|(k, v)| (k.to_string(), *v)).collect(),
        }),
        string_text: Err("not text".to_string()),
        image: Err("not an image".to_string()),
    }
}

fn other_col(name: &str, column_type: &str) -> ColumnStats {
    ColumnStats {
        column_name: name.to_string(),
        column_type: column_type.to_string(),
        string_label: Err("not a label".to_string()),
        string_text: Err("not text".to_string()),
        image: Err("not an image".to_string()),
    }
}

fn row(id: DatasetStatsId, cols: Vec<ColumnStats>) -> StatsRow {
    (id, DatasetStatsResponse { num_examples: 0, statistics: cols, partial: false })
}

fn freqs(cols: &[(&str, &[(&str, usize)])]) -> LabelFrequencies {
    cols.iter()
        .map(|(c, f)| (c.to_string(), f.iter().map(|(k, v)| (k.to_string(), *v)).collect()))
        .collect()
}

#[test]
fn get_label_stats_gives_min_and_median() {
    let lf = freqs(&[("label", &[("a", 7), ("b", 2)]), ("topic", &[("x", 5), ("y", 9), ("z", 1)])]);
    // sorted counts: 1 2 5 7 9; median at position 5 / 2 = 2
    assert_eq!(get_label_stats(&lf, DatasetStatsId::default()), (1, 5));
}

#[test]
fn get_label_stats_median_of_even_count_is_upper_middle() {
    let lf = freqs(&[("label", &[("a", 4), ("b", 1), ("c", 3), ("d", 2)])]);
    assert_eq!(get_label_stats(&lf, DatasetStatsId::default()), (1, 3));
}

#[test]
fn get_label_stats_min_never_above_median() {
    let lf = freqs(&[("l", &[("a", 100), ("b", 100)]), ("m", &[("c", 3)])]);
    let (mn, md) = get_label_stats(&lf, DatasetStatsId::default());
    assert!(mn <= md);
    assert_eq!((mn, md), (3, 100));
}

#[test]
fn label_column_needs_type_and_lowercased_name() {
    assert!(is_label_column_exec(&label_col("Fine_LABEL", 2, &[])));
    assert!(is_label_column_exec(&label_col("LABEL", 2, &[])));
    assert!(is_label_column_exec(&label_col("LaBeL Ä", 2, &[])));
    assert!(!is_label_column_exec(&label_col("category", 2, &[])));
    assert!(!is_label_column_exec(&other_col("label", "string_text")));
}

fn min_examples_rows() -> Vec<StatsRow> {
    vec![
        row(id("ds1", "c1", "train"), vec![label_col("label", 2, &[("a", 3), ("b", 10)])]),
        row(id("ds1", "c1", "test"), vec![label_col("label", 1, &[("a", 2)])]),
        row(id("ds2", "c1", "train"), vec![other_col("text", "string_text")]),
        row(id("ds3", "c1", "train"), vec![label_col("Label", 3, &[("x", 150), ("y", 200), ("z", 120)])]),
        row(id("ds4", "c1", "train"), vec![]),
    ]
}

#[test]
fn min_examples_distribution_counts_finished_configs() {
    let rep = label_min_examples_distribution(&min_examples_rows(), 100).unwrap();
    assert_eq!(rep.configs_visited, 4);
    assert_eq!(rep.configs_has_labels, 2);
    assert_eq!(rep.coverage.len(), 101);
    // ds1: min 5, median 10; ds3: min 120 -> 100, median 150 -> 100
    assert_eq!(rep.coverage[0], (100, 1, 1));
    assert_eq!(rep.coverage[94], (6, 1, 2));
    assert_eq!(rep.coverage[95], (5, 2, 2));
    assert_eq!(rep.coverage[100], (0, 2, 2));
    assert!(rep.errors.is_empty());
}

#[test]
fn min_examples_coverage_by_min_never_exceeds_by_median() {
    let rep = label_min_examples_distribution(&min_examples_rows(), 100).unwrap();
    for (_, by_min, by_median) in rep.coverage {
        assert!(by_min <= by_median);
    }
}

#[test]
fn min_examples_stops_after_target_configs() {
    let rep = label_min_examples_distribution(&min_examples_rows(), 1).unwrap();
    assert_eq!(rep.configs_visited, 2);
    assert_eq!(rep.configs_has_labels, 1);
    assert_eq!(rep.coverage[100], (0, 1, 1));
}

#[test]
fn min_examples_fails_on_label_column_without_counts() {
    let rows = vec![
        row(id("ds1", "c1", "train"), vec![label_col("label", 4, &[])]),
        row(id("ds2", "c1", "train"), vec![]),
    ];
    assert!(matches!(label_min_examples_distribution(&rows, 10), Err(MinExamplesError::NoClassCounts)));
}

#[test]
fn min_examples_fails_when_a_count_overflows() {
    // a negative frequency read as usize is close to usize::MAX; adding it twice overflows
    let rows = vec![
        row(id("ds1", "c1", "train"), vec![label_col("label", 1, &[("a", -1)])]),
        row(id("ds1", "c1", "test"), vec![label_col("label", 1, &[("a", -1)])]),
    ];
    assert!(matches!(label_min_examples_distribution(&rows, 10), Err(MinExamplesError::CountOverflow)));
}

#[test]
fn min_examples_records_unreadable_label_columns() {
    let mut bad = other_col("label", "string_label");
    bad.string_label = Err("missing field".to_string());
    let rows = vec![row(id("ds1", "c1", "train"), vec![bad])];
    let rep = label_min_examples_distribution(&rows, 10).unwrap();
    assert_eq!(rep.errors, vec![(0, "missing field".to_string())]);
    assert_eq!(rep.configs_has_labels, 0);
}

#[test]
fn cardinality_distribution_is_cumulative() {
    let rows = vec![
        row(id("ds1", "c1", "train"), vec![label_col("label", 3, &[])]),
        row(id("ds2", "c1", "train"), vec![label_col("label", 7, &[]), label_col("labels", 5, &[])]),
        row(id("ds3", "c1", "train"), vec![other_col("t", "string_text")]),
    ];
    let (outcome, errors) = label_cardinality_distribution(&rows, 100, 10);
    assert!(errors.is_empty());
    match outcome {
        CardinalityOutcome::Distribution(rep) => {
            assert_eq!(rep.configs_visited, 3);
            assert_eq!(rep.configs_has_labels, 2);
            assert_eq!(rep.covered, vec![0, 0, 0, 1, 1, 1, 1, 2, 2, 2, 2]);
        }
        CardinalityOutcome::FoundTarget(_) => panic!("no config has too many classes"),
    }
}

#[test]
fn cardinality_reports_config_with_too_many_classes() {
    let rows = vec![
        row(id("big", "main", "train"), vec![label_col("label", 51, &[])]),
        row(id("ds2", "c1", "train"), vec![]),
    ];
    match label_cardinality_distribution(&rows, 100, 50).0 {
        CardinalityOutcome::FoundTarget(found) => {
            assert_eq!(found.dataset, "big");
            assert_eq!(found.config, "main");
            assert_eq!(found.split, "train");
        }
        CardinalityOutcome::Distribution(_) => panic!("expected a target"),
    }
}

#[test]
fn cardinality_target_before_any_config_has_empty_id() {
    let rows = vec![
        row(id("", "", "x"), vec![label_col("label", 60, &[])]),
        row(id("ds1", "c1", "train"), vec![]),
    ];
    match label_cardinality_distribution(&rows, 100, 50).0 {
        CardinalityOutcome::FoundTarget(found) => {
            assert_eq!((found.dataset.as_str(), found.config.as_str(), found.split.as_str()), ("", "", ""));
        }
        CardinalityOutcome::Distribution(_) => panic!("expected a target"),
    }
}

#[test]
fn cardinality_coverage_reaches_all_at_limit() {
    let rows = vec![
        row(id("a", "c", "s"), vec![label_col("label", 50, &[])]),
        row(id("b", "c", "s"), vec![label_col("label", 1, &[])]),
        row(id("c", "c", "s"), vec![]),
    ];
    match label_cardinality_distribution(&rows, 100, 60).0 {
        CardinalityOutcome::Distribution(rep) => {
            assert_eq!(rep.covered[0], 0);
            assert_eq!(rep.covered[50], rep.configs_has_labels);
            assert_eq!(rep.covered[60], 2);
        }
        CardinalityOutcome::FoundTarget(_) => panic!("50 classes is within the limit"),
    }
}
