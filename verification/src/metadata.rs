//! What the catalog records of tables and files.

use vstd::prelude::*;

verus! {

/// One stored file: a data file or a delete file.
#[derive(Debug, Clone, PartialEq, Eq)]
pub struct DuckLakeFileData {
    pub path: String,
    pub path_is_relative: bool,
    pub file_size_bytes: i64,
    pub footer_size: Option<i64>,
    pub encryption_key: Option<String>,
    pub mapping_id: Option<i64>,
}

/// A live data file of a table with the delete file that masks rows of it.
#[derive(Debug, Clone, PartialEq, Eq)]
pub struct DuckLakeTableFile {
    pub data_file_id: i64,
    pub file: DuckLakeFileData,
    pub delete_file_id: Option<i64>,
    pub delete_file: Option<DuckLakeFileData>,
    pub row_id_start: Option<i64>,
    pub snapshot_id: Option<i64>,
    /// The snapshot that added the file.
    pub begin_snapshot: Option<i64>,
    /// The schema version the file was written under.
    pub schema_version: Option<i64>,
    /// The highest origin snapshot of a file that holds rows of several.
    pub partial_max: Option<i64>,
    pub max_row_count: Option<i64>,
    pub delete_count: Option<i64>,
    /// The partition specification the file was written under.
    pub partition_id: Option<i64>,
    /// Partition values, each with the index of its partition key.
    pub partition_values: Vec<(i32, Option<String>)>,
}

/// Statistics of one column of one data file.
#[derive(Debug, Clone, PartialEq, Eq)]
pub struct DuckLakeFileColumnStatistics {
    pub data_file_id: i64,
    pub column_id: i64,
    pub column_size_bytes: Option<i64>,
    pub value_count: Option<i64>,
    pub null_count: Option<i64>,
    pub min_value: Option<String>,
    pub max_value: Option<String>,
    pub contains_nan: Option<bool>,
}

/// A data file with the statistics of its columns.
#[derive(Debug, Clone, PartialEq, Eq)]
pub struct DuckLakeFileMetadata {
    pub file: DuckLakeTableFile,
    pub column_statistics: Vec<DuckLakeFileColumnStatistics>,
}

/// A data file that was added between two snapshots.
#[derive(Debug, Clone, PartialEq, Eq)]
pub struct DataFileChange {
    pub begin_snapshot: i64,
    pub path: String,
    pub path_is_relative: bool,
    pub file_size_bytes: i64,
    pub footer_size: Option<i64>,
    pub encryption_key: Option<String>,
    pub row_id_start: Option<i64>,
    pub partial_max: Option<i64>,
    pub mapping_id: Option<i64>,
}

/// A live data file with the names of its schema and table.
#[derive(Debug, Clone, PartialEq, Eq)]
pub struct FileWithTable {
    pub schema_name: String,
    pub table_name: String,
    pub file: DuckLakeTableFile,
}

/// Statistics of a table.
#[derive(Debug, Clone, Copy, PartialEq, Eq)]
pub struct DuckLakeTableStatistics {
    pub record_count: Option<i64>,
    pub file_size_bytes: Option<i64>,
}

/// Statistics of one column of a table.
#[derive(Debug, Clone, PartialEq, Eq)]
pub struct DuckLakeTableColumnStatistics {
    pub column_id: i64,
    pub contains_null: Option<bool>,
    pub min_value: Option<String>,
    pub max_value: Option<String>,
    pub contains_nan: Option<bool>,
    pub column_size_bytes: Option<i64>,
    /// Whether no live delete file masks rows that the bounds count in.
    pub bounds_are_exact: bool,
}

/// What the catalog knows of the contents of a table.
#[derive(Debug, Clone, PartialEq, Eq)]
pub struct DuckLakeStatistics {
    pub table: Option<DuckLakeTableStatistics>,
    pub columns: Vec<DuckLakeTableColumnStatistics>,
    pub files: Vec<DuckLakeFileColumnStatistics>,
}

/// How the columns of a foreign file are found: by their names there.
#[derive(Debug, Clone, PartialEq, Eq)]
pub struct DuckLakeNameMapping {
    pub mapping_id: i64,
    pub table_id: i64,
    pub mapping_type: String,
    pub entries: Vec<DuckLakeNameMappingEntry>,
}

/// One column of a name mapping.
#[derive(Debug, Clone, PartialEq, Eq)]
pub struct DuckLakeNameMappingEntry {
    pub column_id: i64,
    pub source_name: String,
    pub target_field_id: i64,
    pub parent_column: Option<i64>,
    pub is_partition: bool,
}

/// The statistics one column contributes to a narrowed file listing, as SQL.
#[derive(Debug, Clone, PartialEq, Eq)]
pub struct RenderedColumnFilter {
    /// The name of the common table expression that selects the statistics.
    pub alias: String,
    /// The statistics columns that the condition reads.
    pub stats: Vec<String>,
    pub column_id: i64,
    /// The condition on the statistics, guards and all.
    pub condition: String,
}

/// A copy of an optional string.
pub fn clone_text(value: &Option<String>) -> (out: Option<String>)
    ensures
        out == *value,
{
    match value {
        Some(text) => Some(text.clone()),
        None => None,
    }
}

} // verus!
