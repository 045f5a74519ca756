use vstd::prelude::*;
use vstd::string::StringExecFns;

verus! {

/// The column by which datasets are ranked.
pub enum OrderByOptions {
    Trending,
    Likes,
    Downloads,
}

impl OrderByOptions {
    /// The name of the column that holds the ranking value.
    pub open spec fn column_name(&self) -> Seq<char> {
        match self {
            OrderByOptions::Trending => "trending_score"@,
            OrderByOptions::Likes => "likes"@,
            OrderByOptions::Downloads => "downloads"@,
        }
    }

    /// Returns the name of the database column that this option orders by.
    pub fn as_string(&self) -> (s: &str)
        ensures
            s@ == self.column_name(),
    {
        match self {
            OrderByOptions::Trending => "trending_score",
            OrderByOptions::Likes => "likes",
            OrderByOptions::Downloads => "downloads",
        }
    }
}

/// The text of the query for datasets with info, ranked by `column`.
pub open spec fn ordered_dataset_info_query_text(column: Seq<char>) -> Seq<char> {
    "\n            SELECT * FROM datasets\n            JOIN dataset_info\n                ON datasets._id=dataset_info._id\n            WHERE dataset_info.status_code = 200\n            ORDER BY "@ + column + "\n            DESC\n            "@
}

/// The text of the query for split statistics, ranked by `column`.
pub open spec fn ordered_dataset_stats_query_text(column: Seq<char>) -> Seq<char> {
    "\n            SELECT * FROM datasets\n            JOIN dataset_stats\n            ON datasets.id=dataset_stats.id\n            WHERE dataset_stats.status_code = 200\n\t\t\tORDER BY "@ + column + ", datasets.trending_score DESC, dataset_stats.id, dataset_stats.config\n            "@
}

/// The text of the query for datasets, ranked by `column`.
pub open spec fn ordered_datasets_query_text(column: Seq<char>) -> Seq<char> {
    "SELECT * FROM datasets ORDER BY "@ + column + " DESC"@
}

/// The query for every dataset with info, ranked by the option, highest first.
pub fn ordered_dataset_info_query(order_by: &OrderByOptions) -> (r: String)
    ensures
        r@ == ordered_dataset_info_query_text(order_by.column_name()),
{
    let mut q = String::from_str("\n            SELECT * FROM datasets\n            JOIN dataset_info\n                ON datasets._id=dataset_info._id\n            WHERE dataset_info.status_code = 200\n            ORDER BY ");
    q.append(order_by.as_string());
    q.append("\n            DESC\n            ");
    q
}

/// The query for every split with statistics, ranked by the option, then by
/// trending score (highest first), dataset and config.
pub fn ordered_dataset_stats_query(order_by: &OrderByOptions) -> (r: String)
    ensures
        r@ == ordered_dataset_stats_query_text(order_by.column_name()),
{
    let mut q = String::from_str("\n            SELECT * FROM datasets\n            JOIN dataset_stats\n            ON datasets.id=dataset_stats.id\n            WHERE dataset_stats.status_code = 200\n\t\t\tORDER BY ");
    q.append(order_by.as_string());
    q.append(", datasets.trending_score DESC, dataset_stats.id, dataset_stats.config\n            ");
    q
}

/// The query for every dataset, ranked by the option, highest first.
pub fn ordered_datasets_query(order_by: &OrderByOptions) -> (r: String)
    ensures
        r@ == ordered_datasets_query_text(order_by.column_name()),
{
    let mut q = String::from_str("SELECT * FROM datasets ORDER BY ");
    q.append(order_by.as_string());
    q.append(" DESC");
    q
}

} // verus!
