use limit_analysis::tags::{join_tags, parse_tags};

#[test]
fn join_tags_uses_semicolons() {
    let tags = vec!["task_categories:translation".to_string(), "language:en".to_string()];
    assert_eq!(join_tags(&tags), "task_categories:translation;language:en");
}

#[test]
fn parse_tags_splits_and_trims() {
    assert_eq!(parse_tags(" a ; b;c "), vec!["a".to_string(), "b".to_string(), "c".to_string()]);
}

#[test]
fn parse_tags_trims_every_kind_of_surrounding_whitespace() {
    assert_eq!(parse_tags("  tag \t\n;inner space"), vec!["tag".to_string(), "inner space".to_string()]);
}

#[test]
fn parse_tags_of_empty_text_is_one_empty_tag() {
    assert_eq!(parse_tags(""), vec![String::new()]);
}

#[test]
fn tags_round_trip_through_storage() {
    let tags = vec!["license:mit".to_string(), "size_categories:1K<n<10K".to_string(), "x".to_string()];
    assert_eq!(parse_tags(&join_tags(&tags)), tags);
}

#[test]
fn empty_tag_list_reads_back_as_one_empty_tag() {
    let tags: Vec<String> = vec![];
    assert_eq!(parse_tags(&join_tags(&tags)), vec![String::new()]);
}
