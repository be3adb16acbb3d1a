# datafusion_ducklake

The logic of a DuckLake catalog, in Rust verified with Verus. A DuckLake catalog keeps
its metadata in a SQL database (SQLite, MySQL, PostgreSQL or DuckDB) and its rows in
Parquet files; this library decides what is asked of that database, reads what comes
back, and plans the writes.

## Layout

- `src/` is the verified library. Each public function states in its contract what it
  returns on every input it accepts; the properties that span several functions are
  public proof functions named `lemma_*`.
  - Listing files: `file_page` (pages narrowed by statistics, with the retry without
    them), `capabilities`, `catalog_rows`, `metadata`, and one `metadata_provider_*`
    module for each SQL dialect. `parameters` counts what a statement binds.
  - Rows kept in the catalog: `inlined`, `sqlite_values`, `duckdb_values`.
  - Writing: `insert_exec`, `compaction`, `compaction_commit`, `partition`, `sort`.
  - Maintenance: `maintenance`, `data_paths`, `multicatalog`, and `multicatalog_rows`, which
    says what its statements do to the rows of a database.
  - Scans: `delete_filter`, `nan_pruning_barrier`.
  - Shared: `text`, `scan`, `order`, `stats_encode`, `timestamps`, `types`, `error`.
- `app/` connects the library to sqlx, DuckDB, object stores and DataFusion plans. It
  holds the connections, transactions and streams. Two things are settled there as well:
  the fraction of deleted rows from which a file is rewritten, which is a floating-point
  number, and the Arrow value that a decoded tree is put together as.
- `tests/` runs the library on concrete values, some of them against SQLite.

The few functions whose contracts are taken on trust (calls into the standard library,
chrono and object_store) carry `#[verifier::external_body]` or are an
`assume_specification`, each with a comment that says what is relied on.
