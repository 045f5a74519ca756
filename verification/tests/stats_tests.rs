use limit_analysis::image_size::image_size_distribution;
use limit_analysis::coverage::DesiredLimit;
use limit_analysis::max_columns::{columns_limit_coverage_by_config, desired_columns_limit_by_config};
use limit_analysis::max_field_length::{desired_text_length_limit_by_config, text_length_limit_coverage_by_config};
use limit_analysis::models::{ColumnStats, DatasetStatsId, DatasetStatsResponse, ImageStats, StatsRow, StringTextStats};
use limit_analysis::tabular_inputs::tabular_inputs_details;

fn sid(d: &str, c: &str, s: &str) -> DatasetStatsId {
    DatasetStatsId { dataset: d.to_string(), config: c.to_string(), split: s.to_string() }
}

fn col(name: &str, column_type: &str) -> ColumnStats {
    ColumnStats {
        column_name: name.to_string(),
        column_type: column_type.to_string(),
        string_label: Err("not a label".to_string()),
        string_text: Err("not text".to_string()),
        image: Err("not an image".to_string()),
    }
}

fn image_col(max: Option<i64>) -> ColumnStats {
    let mut c = col("image", "image");
    c.image = Ok(ImageStats { nan_count: 0, max });
    c
}

fn text_col(name: &str, max: i64) -> ColumnStats {
    let mut c = col(name, "string_text");
    c.string_text = Ok(StringTextStats { nan_count: 0, min: 0, max });
    c
}

fn srow(id: DatasetStatsId, cols: Vec<ColumnStats>) -> StatsRow {
    (id, DatasetStatsResponse { num_examples: 0, statistics: cols, partial: false })
}

#[test]
fn image_sizes_are_bucketed_and_accumulated() {
    let rows = vec![
        srow(sid("ds1", "c", "train"), vec![image_col(Some(250))]),
        srow(sid("ds1", "c", "test"), vec![image_col(Some(310)), image_col(None)]),
        srow(sid("ds2", "c", "train"), vec![image_col(Some(90))]),
        srow(sid("ds3", "c", "train"), vec![col("text", "string")]),
    ];
    let rep = image_size_distribution(&rows, 100, 100).unwrap();
    assert_eq!(rep.total_image_configs, 2);
    assert_eq!(rep.covered, vec![(0, 1), (100, 1), (200, 1), (300, 2)]);
    assert_eq!(rep.covered.last().unwrap().1, rep.total_image_configs);
}

#[test]
fn image_sizes_stop_after_more_than_target() {
    let rows = vec![
        srow(sid("a", "c", "s"), vec![image_col(Some(10))]),
        srow(sid("b", "c", "s"), vec![image_col(Some(20))]),
        srow(sid("c", "c", "s"), vec![image_col(Some(30))]),
        srow(sid("d", "c", "s"), vec![]),
    ];
    let rep = image_size_distribution(&rows, 1, 10).unwrap();
    assert_eq!(rep.total_image_configs, 2);
    assert_eq!(rep.covered, vec![(0, 0), (10, 1), (20, 2)]);
}

#[test]
fn image_sizes_without_images_give_no_table() {
    let rows = vec![srow(sid("a", "c", "s"), vec![col("t", "string")]), srow(sid("b", "c", "s"), vec![])];
    assert_eq!(image_size_distribution(&rows, 10, 10).err(), Some(vec![]));
    let mut bad = col("image", "image");
    bad.image = Err("invalid type".to_string());
    let rows = vec![srow(sid("a", "c", "s"), vec![bad]), srow(sid("b", "c", "s"), vec![])];
    assert_eq!(image_size_distribution(&rows, 10, 10).err(), Some(vec![(0, "invalid type".to_string())]));
}

#[test]
fn image_sizes_record_unreadable_columns() {
    let mut bad = col("image", "image");
    bad.image = Err("invalid type".to_string());
    let rows = vec![
        srow(sid("a", "c", "s"), vec![bad, image_col(Some(5))]),
        srow(sid("b", "c", "s"), vec![]),
    ];
    let rep = image_size_distribution(&rows, 10, 10).unwrap();
    assert_eq!(rep.errors, vec![(0, "invalid type".to_string())]);
    assert_eq!(rep.covered, vec![(0, 1)]);
}

fn column_rows() -> Vec<StatsRow> {
    vec![
        srow(sid("ds1", "c1", "train"), vec![col("a", "string"), col("b", "string")]),
        srow(sid("ds1", "c1", "test"), vec![col("b", "string"), col("c", "string")]),
        srow(sid("ds2", "c1", "train"), vec![col("a", "string")]),
        srow(sid("ds3", "c1", "train"), vec![col("a", "s"), col("b", "s"), col("c", "s"), col("d", "s")]),
    ]
}

#[test]
fn column_coverage_reports_every_interval() {
    assert_eq!(columns_limit_coverage_by_config(&column_rows(), 3, 1), Ok(vec![(1, 0), (2, 1)]));
}

#[test]
fn column_coverage_reports_the_tail() {
    assert_eq!(columns_limit_coverage_by_config(&column_rows(), 3, 3), Ok(vec![(4, 1)]));
}

#[test]
fn column_coverage_rejects_a_config_seen_twice() {
    let rows = vec![
        srow(sid("ds1", "c1", "train"), vec![]),
        srow(sid("ds2", "c1", "train"), vec![]),
        srow(sid("ds1", "c1", "test"), vec![]),
    ];
    assert_eq!(columns_limit_coverage_by_config(&rows, 3, 1), Err(2));
}

#[test]
fn column_coverage_reports_the_first_config_seen_twice() {
    let rows = vec![
        srow(sid("ds1", "c1", "train"), vec![]),
        srow(sid("ds2", "c1", "train"), vec![]),
        srow(sid("ds3", "c1", "train"), vec![]),
        srow(sid("ds2", "c1", "test"), vec![]),
        srow(sid("ds1", "c1", "test"), vec![]),
        srow(sid("ds3", "c1", "test"), vec![]),
    ];
    assert_eq!(columns_limit_coverage_by_config(&rows, 3, 1), Err(3));
}

#[test]
fn column_coverage_keys_join_dataset_and_config() {
    let rows = vec![srow(sid("a_b", "c", "s"), vec![]), srow(sid("a", "b_c", "s"), vec![])];
    assert_eq!(columns_limit_coverage_by_config(&rows, 3, 1), Err(1));
}

#[test]
fn desired_columns_limit_sorts_counts() {
    // counts gathered at each config start: 0, 3, 1
    assert_eq!(desired_columns_limit_by_config(&column_rows(), 3, 1), DesiredLimit::Limit(1));
    assert_eq!(desired_columns_limit_by_config(&column_rows(), 3, 2), DesiredLimit::Limit(3));
    assert_eq!(desired_columns_limit_by_config(&column_rows(), 5, 1), DesiredLimit::NotReached);
    assert_eq!(desired_columns_limit_by_config(&column_rows(), 0, 0), DesiredLimit::Limit(0));
    assert_eq!(desired_columns_limit_by_config(&column_rows(), 3, 3), DesiredLimit::OutOfRange);
}

fn text_rows() -> Vec<StatsRow> {
    vec![
        srow(sid("ds1", "c", "train"), vec![text_col("t", 40), text_col("u", 900)]),
        srow(sid("ds2", "c", "train"), vec![text_col("t", 10)]),
        srow(sid("ds3", "c", "train"), vec![col("x", "int")]),
    ]
}

#[test]
fn text_length_coverage_counts_shorter_configs() {
    // lengths of finished configs: 900, 10; points at 1 and 2, tail at 4
    assert_eq!(text_length_limit_coverage_by_config(&text_rows(), 100, 1), Some(vec![(1, 0), (2, 1)]));
    assert_eq!(text_length_limit_coverage_by_config(&text_rows(), 100, 3), Some(vec![(4, 1)]));
}

#[test]
fn text_length_coverage_fails_on_unreadable_text_column() {
    let rows = vec![srow(sid("ds1", "c", "train"), vec![col("t", "string_text")])];
    assert_eq!(text_length_limit_coverage_by_config(&rows, 100, 1), None);
}

#[test]
fn desired_text_length_limit_sorts_lengths() {
    // lengths gathered at each config start: 0, 900, 10
    assert_eq!(desired_text_length_limit_by_config(&text_rows(), 3, 2), Ok(DesiredLimit::Limit(900)));
    assert_eq!(desired_text_length_limit_by_config(&text_rows(), 3, 0), Ok(DesiredLimit::Limit(0)));
    assert_eq!(desired_text_length_limit_by_config(&text_rows(), 4, 0), Ok(DesiredLimit::NotReached));
    assert_eq!(desired_text_length_limit_by_config(&text_rows(), 3, 4), Ok(DesiredLimit::OutOfRange));
    let bad = vec![srow(sid("ds1", "c", "train"), vec![col("t", "string_text")])];
    assert_eq!(desired_text_length_limit_by_config(&bad, 3, 0), Err(()));
}

#[test]
fn tabular_inputs_lists_configs_with_labels() {
    let mut label = col("Label", "string_label");
    label.column_name = "Label".to_string();
    let rows = vec![
        srow(sid("ds1", "c1", "train"), vec![label, col("text", "string"), col("text", "string")]),
        srow(sid("ds1", "c1", "test"), vec![col("extra", "int")]),
        srow(sid("ds2", "c1", "train"), vec![col("x", "string")]),
        srow(sid("ds3", "c1", "train"), vec![]),
    ];
    let lines = tabular_inputs_details(&rows, 10);
    assert_eq!(lines.len(), 1);
    let l = &lines[0];
    assert_eq!((l.dataset.as_str(), l.config.as_str()), ("ds1", "c1"));
    assert_eq!((l.label_count, l.non_label_count), (1, 2));
    assert_eq!(l.label_names, "Label");
    assert_eq!(l.non_label_names, "text; extra");
}
