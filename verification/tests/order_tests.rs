use limit_analysis::order::{ordered_datasets_query, OrderByOptions};

#[test]
fn as_string_names_each_column() {
    assert_eq!(OrderByOptions::Trending.as_string(), "trending_score");
    assert_eq!(OrderByOptions::Likes.as_string(), "likes");
    assert_eq!(OrderByOptions::Downloads.as_string(), "downloads");
}

#[test]
fn ordered_datasets_query_uses_column() {
    assert_eq!(
        ordered_datasets_query(&OrderByOptions::Likes),
        "SELECT * FROM datasets ORDER BY likes DESC"
    );
}
