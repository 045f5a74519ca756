# limit_analysis

How reasonable are the limits of a dataset service (rows per dataset, size,
columns, text length, label classes, image width)? This project answers that
against the datasets published on the Hugging Face hub: it scrapes the hub's
dataset list and the dataset viewer's info and statistics into SQLite, then
reports, for a limit, which share of the most popular datasets or configs it
covers, and which limit would cover a chosen share.

## Layout

- `src/` is the library, verified with Verus. Each analysis is a function from
  the rows read from the store to what is reported, with a contract stated
  over a model of the rows (`coverage`, `dataset_rows`, `dataset_size`,
  `max_columns`, `max_field_length`, `image_size`, `label_cardinality`,
  `label_min_examples`, `tabular_inputs`, `task_popularity`). The decisions
  of the scraper (`scrape`), the SQL it orders by (`order`), how tags are
  stored (`tags`) and the totals (`total_counts`) are verified the same way.
  `laws` holds the properties that relate several results.
- `tests/` runs the library on concrete values.
- `app/` is the program: SQLite through rusqlite, HTTP through reqwest and
  tokio, JSON through serde, and the printing of reports.
