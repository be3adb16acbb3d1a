//! The logic of a DuckLake catalog reader and writer: file listings narrowed by
//! statistics, compaction and maintenance plans, the SQL dialects of the catalog
//! databases, and the rows that deletes leave.

pub mod capabilities;
pub mod catalog_rows;
pub mod compaction;
pub mod compaction_commit;
pub mod data_paths;
pub mod delete_filter;
pub mod duckdb_values;
pub mod error;
pub mod file_page;
pub mod inlined;
pub mod insert_exec;
pub mod listing_model;
pub mod maintenance;
pub mod metadata;
pub mod metadata_provider_duckdb;
pub mod metadata_provider_mysql;
pub mod metadata_provider_postgres;
pub mod metadata_provider_sqlite;
pub mod multicatalog;
pub mod multicatalog_rows;
pub mod nan_pruning_barrier;
pub mod order;
pub mod parameters;
pub mod partition;
pub mod regex_model;
pub mod scan;
pub mod sort;
pub mod sql_model;
pub mod sqlite_floats;
pub mod sqlite_values;
pub mod stats_encode;
pub mod text;
pub mod timestamps;
pub mod types;
