use vstd::prelude::*;

verus! {

/// The version of a dataset's builder.
pub struct Version {
    pub version_str: String,
    pub major: i32,
    pub minor: i32,
    pub patch: i32,
}

/// One split of a dataset config, with its size.
pub struct SplitInfo {
    pub name: String,
    pub num_bytes: i64,
    pub num_examples: i64,
    pub dataset_name: Option<String>,
}

/// What the dataset viewer reports of one config of a dataset: the plain
/// values of it, with its splits keyed by split name.
pub struct DatasetInfo {
    pub description: String,
    pub citation: String,
    pub homepage: String,
    pub license: String,
    pub builder_name: String,
    pub dataset_name: String,
    pub config_name: String,
    pub version: Version,
    pub splits: Vec<(String, SplitInfo)>,
    pub download_size: i64,
    pub dataset_size: i64,
}

/// What the dataset viewer reports of a dataset: its configs keyed by config name.
pub struct DatasetInfoResponse {
    pub dataset_info: Vec<(String, DatasetInfo)>,
    pub partial: bool,
}

/// A dataset as listed by the hub, with the values the analyses read.
pub struct Dataset {
    pub _id: String,
    pub id: String,
    pub author: String,
    pub disabled: bool,
    pub last_modified: String,
    pub likes: i64,
    pub private: bool,
    pub sha: String,
    pub description: Option<String>,
    pub downloads: i64,
    pub tags: Vec<String>,
    pub created_at: String,
    pub key: String,
}

/// Statistics of a column whose values are class labels.
pub struct StringLabelStats {
    pub nan_count: i64,
    pub n_unique: i64,
    /// How often each class occurs, keyed by class name.
    pub frequencies: Vec<(String, i64)>,
}

/// Statistics of a column of free text; `min` and `max` are text lengths.
pub struct StringTextStats {
    pub nan_count: i64,
    pub min: i64,
    pub max: i64,
}

/// Statistics of a column of images; `max` is the largest image width, where known.
pub struct ImageStats {
    pub nan_count: i64,
    pub max: Option<i64>,
}

/// One column of a split's statistics, with its statistics read as each of
/// the kinds the analyses ask for (an error text where they cannot be read so).
pub struct ColumnStats {
    pub column_name: String,
    pub column_type: String,
    pub string_label: Result<StringLabelStats, String>,
    pub string_text: Result<StringTextStats, String>,
    pub image: Result<ImageStats, String>,
}

/// The statistics the dataset viewer reports of one split.
pub struct DatasetStatsResponse {
    pub num_examples: i64,
    pub statistics: Vec<ColumnStats>,
    pub partial: bool,
}

/// Names one split of one config of one dataset.
#[derive(Clone, Debug)]
pub struct DatasetStatsId {
    pub dataset: String,
    pub config: String,
    pub split: String,
}

impl Default for DatasetStatsId {
    /// The id with all three names empty.
    fn default() -> (r: Self)
        ensures
            r.dataset@.len() == 0,
            r.config@.len() == 0,
            r.split@.len() == 0,
    {
        DatasetStatsId { dataset: String::new(), config: String::new(), split: String::new() }
    }
}

/// Totals over the datasets that have info.
pub struct DatasetCount {
    pub datasets: i64,
    pub configs: i64,
    pub splits: i64,
}

/// Totals over the splits that have statistics.
pub struct DatasetStatsCount {
    pub datasets: i64,
    pub configs: i64,
    pub splits: i64,
}

/// A row of split statistics, in the order the analyses read them.
pub type StatsRow = (DatasetStatsId, DatasetStatsResponse);

/// The two ids name the same config of the same dataset.
pub open spec fn same_config(a: DatasetStatsId, b: DatasetStatsId) -> bool {
    a.dataset@ == b.dataset@ && a.config@ == b.config@
}

/// Row `i` begins a new config: its dataset or config differs from that of
/// the row before it (before the first row, both names count as empty).
pub open spec fn starts_config(rows: Seq<StatsRow>, i: int) -> bool {
    if i == 0 {
        !(rows[0].0.dataset@.len() == 0 && rows[0].0.config@.len() == 0)
    } else {
        !same_config(rows[i - 1].0, rows[i].0)
    }
}

/// A copy of the id.
pub fn copy_id(id: &DatasetStatsId) -> (r: DatasetStatsId)
    ensures
        r == *id,
{
    DatasetStatsId { dataset: id.dataset.clone(), config: id.config.clone(), split: id.split.clone() }
}

/// Whether row `i` begins a new config.
pub fn is_new_config(rows: &Vec<StatsRow>, i: usize) -> (r: bool)
    requires
        i < rows@.len(),
    ensures
        r == starts_config(rows@, i as int),
{
    let cur = &rows[i].0;
    if i == 0 {
        !(cur.dataset.as_str().is_empty() && cur.config.as_str().is_empty())
    } else {
        let prev = &rows[i - 1].0;
        !(prev.dataset == cur.dataset && prev.config == cur.config)
    }
}

} // verus!
