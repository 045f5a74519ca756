use limit_analysis::models::{DatasetInfo, DatasetInfoResponse, SplitInfo, Version};
use limit_analysis::order::{ordered_dataset_info_query, ordered_dataset_stats_query, OrderByOptions};
use limit_analysis::scrape::{
    datasets_api_url, info_record, info_url, is_success_status, next_page_step, parse_link_header, stats_record,
    read_action, stats_requests, stats_url, PageOutcome, PageStep, ReadAction, ViewerBody,
};

#[test]
fn urls_name_the_dataset() {
    assert_eq!(info_url("org/ds"), "https://datasets-server.huggingface.co/info?dataset=org/ds");
    assert_eq!(
        stats_url("org/ds", "default", "train"),
        "https://datasets-server.huggingface.co/statistics?dataset=org/ds&config=default&split=train"
    );
    assert_eq!(datasets_api_url(), "https://huggingface.co/api/datasets");
}

#[test]
fn success_is_two_hundreds() {
    assert!(is_success_status(200));
    assert!(is_success_status(299));
    assert!(!is_success_status(300));
    assert!(!is_success_status(199));
    assert!(!is_success_status(404));
}

#[test]
fn link_header_gives_next_page() {
    let h = "<https://huggingface.co/api/datasets?cursor=abc>; rel=\"next\"";
    assert_eq!(parse_link_header(h), Some(("https://huggingface.co/api/datasets?cursor=abc".to_string(), false)));
}

#[test]
fn link_header_marks_last_page() {
    assert_eq!(parse_link_header("<<u>; rel=\"last\""), Some(("u".to_string(), true)));
}

#[test]
fn link_header_must_split_in_two() {
    assert_eq!(parse_link_header("<u>"), None);
    assert_eq!(parse_link_header("<u>; rel=\"next\">; x"), None);
}

#[test]
fn page_step_follows_the_link() {
    let next = PageOutcome::Received { status: 200, link: Some("<n>; rel=\"next\"".to_string()) };
    assert!(matches!(next_page_step(&next), Some(PageStep::SaveAndContinue(u)) if u == "n"));
    let last = PageOutcome::Received { status: 200, link: Some("<n>; rel=\"last\"".to_string()) };
    assert!(matches!(next_page_step(&last), Some(PageStep::SaveAndFinish)));
    let none = PageOutcome::Received { status: 200, link: None };
    assert!(matches!(next_page_step(&none), Some(PageStep::SaveAndFinish)));
    let failed = PageOutcome::Received { status: 500, link: None };
    assert!(matches!(next_page_step(&failed), Some(PageStep::Retry)));
    assert!(matches!(next_page_step(&PageOutcome::SendFailed), Some(PageStep::Retry)));
    let bad = PageOutcome::Received { status: 200, link: Some("broken".to_string()) };
    assert!(next_page_step(&bad).is_none());
}

#[test]
fn records_for_viewer_responses() {
    let none: Option<u32> = None;
    assert_eq!(info_record::<u32>(404, ViewerBody::Text("gone".to_string())), Some((none, 404, Some("gone".to_string()))));
    assert_eq!(info_record(200, ViewerBody::Parsed(7u32)), Some((Some(7), 200, None)));
    assert_eq!(
        info_record::<u32>(200, ViewerBody::ParseError("bad".to_string())),
        Some((none, 400, Some("bad".to_string())))
    );
    assert_eq!(stats_record::<u32>(500, ViewerBody::Text("err".to_string())), Some((none, 500, Some("err".to_string()))));
    assert_eq!(stats_record(204, ViewerBody::Parsed(9u32)), Some((Some(9), 204, None)));
    assert_eq!(stats_record::<u32>(200, ViewerBody::ParseError("bad".to_string())), None);
}

#[test]
fn body_is_read_as_text_exactly_on_failure() {
    assert!(matches!(read_action(200), ReadAction::ParseBody));
    assert!(matches!(read_action(299), ReadAction::ParseBody));
    assert!(matches!(read_action(199), ReadAction::ReadText));
    assert!(matches!(read_action(300), ReadAction::ReadText));
    assert!(matches!(read_action(404), ReadAction::ReadText));
}

fn cfg(name: &str, splits: &[&str]) -> (String, DatasetInfo) {
    (
        name.to_string(),
        DatasetInfo {
            description: String::new(),
            citation: String::new(),
            homepage: String::new(),
            license: String::new(),
            builder_name: String::new(),
            dataset_name: String::new(),
            config_name: name.to_string(),
            version: Version { version_str: String::new(), major: 0, minor: 0, patch: 0 },
            splits: splits
                .iter()
                .map(|s| (s.to_string(), SplitInfo { name: s.to_string(), num_bytes: 0, num_examples: 0, dataset_name: None }))
                .collect(),
            download_size: 0,
            dataset_size: 0,
        },
    )
}

#[test]
fn stats_requests_cover_every_split() {
    let rows = vec![
        ("a".to_string(), DatasetInfoResponse { dataset_info: vec![cfg("x", &["train", "test"]), cfg("y", &[])], partial: false }),
        ("b".to_string(), DatasetInfoResponse { dataset_info: vec![cfg("z", &["all"])], partial: false }),
    ];
    let t = |a: &str, b: &str, c: &str| (a.to_string(), b.to_string(), c.to_string());
    assert_eq!(stats_requests(&rows), vec![t("a", "x", "train"), t("a", "x", "test"), t("b", "z", "all")]);
}

#[test]
fn ordered_queries_name_the_column() {
    let q = ordered_dataset_info_query(&OrderByOptions::Downloads);
    assert!(q.contains("ORDER BY downloads\n            DESC"));
    let s = ordered_dataset_stats_query(&OrderByOptions::Trending);
    assert!(s.contains("ORDER BY trending_score, datasets.trending_score DESC, dataset_stats.id, dataset_stats.config"));
}
