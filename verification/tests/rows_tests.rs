use limit_analysis::coverage::{coverage_report, desired_limit_i64, DesiredLimit};
use limit_analysis::dataset_rows::{
    config_rows, dataset_row_limit_coverage_by_config, dataset_row_limit_coverage_by_dataset, dataset_rows,
    desired_row_limit_by_config,
};
use limit_analysis::dataset_size::{desired_size_limit_by_config, size_limit_coverage_by_config};
use limit_analysis::models::{DatasetCount, DatasetInfo, DatasetInfoResponse, SplitInfo, Version};
use limit_analysis::total_counts::calculate_datasets_count;

fn split(name: &str, examples: i64) -> (String, SplitInfo) {
    (name.to_string(), SplitInfo { name: name.to_string(), num_bytes: 0, num_examples: examples, dataset_name: None })
}

fn config(name: &str, size: i64, splits: Vec<(String, SplitInfo)>) -> (String, DatasetInfo) {
    (
        name.to_string(),
        DatasetInfo {
            description: String::new(),
            citation: String::new(),
            homepage: String::new(),
            license: String::new(),
            builder_name: String::new(),
            dataset_name: String::new(),
            config_name: name.to_string(),
            version: Version { version_str: "1.0.0".to_string(), major: 1, minor: 0, patch: 0 },
            splits,
            download_size: 0,
            dataset_size: size,
        },
    )
}

fn infos() -> Vec<DatasetInfoResponse> {
    vec![
        DatasetInfoResponse {
            dataset_info: vec![
                config("a", 2_500_000_000, vec![split("train", 100), split("test", 20)]),
                config("b", 999_999_999, vec![split("train", 5)]),
            ],
            partial: false,
        },
        DatasetInfoResponse { dataset_info: vec![config("c", 7_000_000_000, vec![split("train", 300_000)])], partial: false },
        DatasetInfoResponse { dataset_info: vec![], partial: false },
    ]
}

#[test]
fn coverage_report_points_and_tail() {
    assert_eq!(coverage_report(&vec![1, 5, 3, 9, 2], 4, 2), vec![(2, 1), (4, 2), (5, 3)]);
    assert_eq!(coverage_report(&vec![1, 5, 3, 9], 4, 2), vec![(2, 1), (4, 2)]);
    assert_eq!(coverage_report(&vec![], 4, 2), Vec::<(i32, i32)>::new());
}

#[test]
fn coverage_grows_with_the_limit() {
    let vals = vec![10, 20, 30, 40];
    let low = coverage_report(&vals, 15, 1);
    let high = coverage_report(&vals, 35, 1);
    for (l, h) in low.iter().zip(high.iter()) {
        assert_eq!(l.0, h.0);
        assert!(l.1 <= h.1 && h.1 <= h.0);
    }
}

#[test]
fn rows_sum_the_splits() {
    let i = infos();
    assert_eq!(config_rows(&i[0].dataset_info[0].1), Some(120));
    assert_eq!(dataset_rows(&i[0]), Some(125));
    assert_eq!(dataset_rows(&i[2]), Some(0));
}

#[test]
fn row_limit_coverage_by_dataset_counts_datasets() {
    // dataset rows: 125, 300000, 0
    assert_eq!(dataset_row_limit_coverage_by_dataset(&infos(), 100_000, 2), Some(vec![(2, 1), (3, 2)]));
}

#[test]
fn row_limit_coverage_by_config_counts_configs() {
    // config rows: 120, 5, 300000
    assert_eq!(dataset_row_limit_coverage_by_config(&infos(), 100, 1), Some(vec![(1, 0), (2, 1), (3, 1)]));
}

#[test]
fn desired_row_limit_takes_sorted_position() {
    assert_eq!(desired_row_limit_by_config(&infos(), 3, 0), Ok(DesiredLimit::Limit(5)));
    assert_eq!(desired_row_limit_by_config(&infos(), 3, 2), Ok(DesiredLimit::Limit(300_000)));
    assert_eq!(desired_row_limit_by_config(&infos(), 2, 1), Ok(DesiredLimit::Limit(120)));
    assert_eq!(desired_row_limit_by_config(&infos(), 4, 1), Ok(DesiredLimit::NotReached));
    assert_eq!(desired_row_limit_by_config(&infos(), 3, 3), Ok(DesiredLimit::OutOfRange));
}

#[test]
fn desired_limit_never_decreases_with_target() {
    let vals = vec![9, -3, 4, 4, 0];
    let mut prev = i64::MIN;
    for t in 0..5 {
        match desired_limit_i64(&vals, 5, t) {
            DesiredLimit::Limit(x) => {
                assert!(prev <= x);
                prev = x;
            }
            other => panic!("unexpected outcome {:?}", other),
        }
    }
    assert_eq!(desired_limit_i64(&vals, 0, 0), DesiredLimit::Limit(9));
    assert_eq!(desired_limit_i64(&vals, 5, 5), DesiredLimit::OutOfRange);
    assert_eq!(desired_limit_i64(&vals, 6, 0), DesiredLimit::NotReached);
}

#[test]
fn size_coverage_uses_whole_gigabytes() {
    // sizes in GB: 2, 0, 7
    assert_eq!(size_limit_coverage_by_config(&infos(), 3, 1), vec![(1, 1), (2, 2), (3, 2)]);
}

#[test]
fn size_coverage_rounds_negative_sizes_toward_zero() {
    let i = vec![DatasetInfoResponse { dataset_info: vec![config("n", -1_500_000_000, vec![])], partial: false }];
    // -1.5 GB counts as -1, which a limit of 0 covers but a limit of -1 does not
    assert_eq!(size_limit_coverage_by_config(&i, 0, 1), vec![(1, 1)]);
    assert_eq!(size_limit_coverage_by_config(&i, -1, 1), vec![(1, 0)]);
}

#[test]
fn desired_size_limit_is_in_bytes() {
    assert_eq!(desired_size_limit_by_config(&infos(), 3, 1), DesiredLimit::Limit(2_500_000_000));
    assert_eq!(desired_size_limit_by_config(&infos(), 9, 1), DesiredLimit::NotReached);
}

#[test]
fn datasets_count_counts_configs_and_splits() {
    let DatasetCount { datasets, configs, splits } = calculate_datasets_count(&infos());
    assert_eq!((datasets, configs, splits), (3, 3, 4));
}

#[test]
fn row_sums_that_overflow_are_refused() {
    let big = vec![DatasetInfoResponse {
        dataset_info: vec![config("x", 0, vec![split("a", i64::MAX), split("b", 1), split("c", -5)])],
        partial: false,
    }];
    assert_eq!(config_rows(&big[0].dataset_info[0].1), None);
    assert_eq!(dataset_rows(&big[0]), None);
    assert_eq!(dataset_row_limit_coverage_by_dataset(&big, 10, 1), None);
    assert_eq!(dataset_row_limit_coverage_by_config(&big, 10, 1), None);
    assert_eq!(desired_row_limit_by_config(&big, 1, 0), Err(()));
}

#[test]
fn row_sums_may_pass_through_large_values() {
    let i = vec![DatasetInfoResponse {
        dataset_info: vec![config("x", 0, vec![split("a", i64::MAX), split("b", -5)])],
        partial: false,
    }];
    assert_eq!(dataset_rows(&i[0]), Some(i64::MAX - 5));
}

#[test]
fn desired_limit_is_one_of_the_first_values() {
    let vals = vec![7, -2, 7, 40, 3, 1000];
    for t in 0..4 {
        match desired_limit_i64(&vals, 4, t) {
            DesiredLimit::Limit(x) => assert!(vals[..4].contains(&x)),
            other => panic!("unexpected outcome {:?}", other),
        }
    }
    assert_eq!(desired_limit_i64(&vals, 4, 3), DesiredLimit::Limit(40));
}
