use vstd::prelude::*;

pub mod order;
pub mod text;
pub mod sorting;
pub mod models;
pub mod label_stats;
pub mod label_min_examples;
pub mod label_cardinality;
pub mod image_size;
pub mod coverage;
pub mod dataset_rows;
pub mod dataset_size;
pub mod max_columns;
pub mod max_field_length;
pub mod tabular_inputs;
pub mod task_popularity;
pub mod tags;
pub mod scrape;
pub mod total_counts;
pub mod laws;
pub mod column_laws;
pub mod count_laws;
