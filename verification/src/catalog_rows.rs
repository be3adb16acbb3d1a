//! From rows of the catalog to what they record.
//!
//! The rows come as plain values, column by column; a column that the catalog
//! may leave empty is an `Option`. A query that failed for want of a table that
//! older catalogs do not have counts as one without rows.

use std::collections::HashMap;
use vstd::prelude::*;
use crate::error::{invalid_config, DuckLakeError};
use crate::file_page::Reply;
use crate::metadata::{
    DuckLakeFileColumnStatistics, DuckLakeFileData, DuckLakeNameMapping, DuckLakeNameMappingEntry,
    DuckLakeStatistics, DuckLakeTableColumnStatistics, DuckLakeTableFile, DuckLakeTableStatistics,
    FileWithTable,
};
use crate::text::{int_text, push_i64};

verus! {

broadcast use vstd::std_specs::hash::group_hash_axioms;

// ---------------------------------------------------------------------------
// Files
// ---------------------------------------------------------------------------

/// The delete file part of a row of a file listing. Without an id there is none,
/// and the other columns are of no account.
#[derive(Debug, Clone, PartialEq, Eq)]
pub struct DeleteFileRow {
    pub delete_file_id: Option<i64>,
    pub path: Option<String>,
    pub path_is_relative: Option<bool>,
    pub file_size_bytes: Option<i64>,
    pub footer_size: Option<i64>,
    pub encryption_key: Option<String>,
    pub delete_count: Option<i64>,
}

/// A row of a file listing.
#[derive(Debug, Clone, PartialEq, Eq)]
pub struct TableFileRow {
    pub data_file_id: i64,
    pub file: DuckLakeFileData,
    pub row_id_start: Option<i64>,
    pub record_count: Option<i64>,
    pub delete: DeleteFileRow,
    pub begin_snapshot: Option<i64>,
    pub partial_max: Option<i64>,
    pub schema_version: Option<i64>,
    pub partition_id: Option<i64>,
}

/// A column of a delete file that must not be empty.
#[derive(Debug, Clone, Copy, PartialEq, Eq, Structural)]
pub enum EmptyColumn {
    Path,
    PathIsRelative,
    FileSizeBytes,
}

/// Whether `out` is the delete file of a row: none without an id, and the first
/// empty column where one is empty that must not be.
pub open spec fn is_delete_file(
    row: DeleteFileRow,
    out: Result<Option<DuckLakeFileData>, EmptyColumn>,
) -> bool {
    if row.delete_file_id is None {
        out == Ok::<Option<DuckLakeFileData>, EmptyColumn>(None)
    } else if row.path is None {
        out == Err::<Option<DuckLakeFileData>, EmptyColumn>(EmptyColumn::Path)
    } else if row.path_is_relative is None {
        out == Err::<Option<DuckLakeFileData>, EmptyColumn>(EmptyColumn::PathIsRelative)
    } else if row.file_size_bytes is None {
        out == Err::<Option<DuckLakeFileData>, EmptyColumn>(EmptyColumn::FileSizeBytes)
    } else {
        out == Ok::<Option<DuckLakeFileData>, EmptyColumn>(
            Some(
                DuckLakeFileData {
                    path: row.path->0,
                    path_is_relative: row.path_is_relative->0,
                    file_size_bytes: row.file_size_bytes->0,
                    footer_size: row.footer_size,
                    encryption_key: row.encryption_key,
                    mapping_id: None,
                },
            ),
        )
    }
}

fn delete_file_of(row: DeleteFileRow) -> (out: Result<Option<DuckLakeFileData>, EmptyColumn>)
    ensures
        is_delete_file(row, out),
{
    if row.delete_file_id.is_none() {
        return Ok(None);
    }
    match row.path {
        None => Err(EmptyColumn::Path),
        Some(path) => match row.path_is_relative {
            None => Err(EmptyColumn::PathIsRelative),
            Some(path_is_relative) => match row.file_size_bytes {
                None => Err(EmptyColumn::FileSizeBytes),
                Some(file_size_bytes) => Ok(
                    Some(
                        DuckLakeFileData {
                            path,
                            path_is_relative,
                            file_size_bytes,
                            footer_size: row.footer_size,
                            encryption_key: row.encryption_key,
                            mapping_id: None,
                        },
                    ),
                ),
            },
        },
    }
}

/// Decodes a row of the files of a table at a snapshot. The partition values are
/// read later.
pub fn decode_table_file(row: TableFileRow, snapshot_id: i64) -> (out: Result<
    DuckLakeTableFile,
    EmptyColumn,
>)
    ensures
        match out {
            Ok(file) => {
                &&& file.data_file_id == row.data_file_id
                &&& file.file == row.file
                &&& file.delete_file_id == row.delete.delete_file_id
                &&& is_delete_file(row.delete, Ok(file.delete_file))
                &&& file.row_id_start == row.row_id_start
                &&& file.snapshot_id == Some(snapshot_id)
                &&& file.begin_snapshot == row.begin_snapshot
                &&& file.schema_version == row.schema_version
                &&& file.partial_max == row.partial_max
                &&& file.max_row_count == row.record_count
                &&& file.delete_count == if row.delete.delete_file_id is Some {
                    row.delete.delete_count
                } else {
                    None
                }
                &&& file.partition_id == row.partition_id
                &&& file.partition_values@.len() == 0
            },
            Err(column) => is_delete_file(row.delete, Err(column)),
        },
{
    let delete_file_id = row.delete.delete_file_id;
    let delete_count = if delete_file_id.is_some() {
        row.delete.delete_count
    } else {
        None
    };
    match delete_file_of(row.delete) {
        Err(column) => Err(column),
        Ok(delete_file) => Ok(
            DuckLakeTableFile {
                data_file_id: row.data_file_id,
                file: row.file,
                delete_file_id,
                delete_file,
                row_id_start: row.row_id_start,
                snapshot_id: Some(snapshot_id),
                begin_snapshot: row.begin_snapshot,
                schema_version: row.schema_version,
                partial_max: row.partial_max,
                max_row_count: row.record_count,
                delete_count,
                partition_id: row.partition_id,
                partition_values: Vec::new(),
            },
        ),
    }
}

/// Decodes a row of the files of all tables. Such a row names schema and table,
/// and in place of a row count it has the number of deletes.
pub fn decode_file_with_table(
    schema_name: String,
    table_name: String,
    data_file_id: i64,
    file: DuckLakeFileData,
    delete: DeleteFileRow,
) -> (out: Result<FileWithTable, EmptyColumn>)
    ensures
        match out {
            Ok(listed) => {
                &&& listed.schema_name == schema_name
                &&& listed.table_name == table_name
                &&& listed.file.data_file_id == data_file_id
                &&& listed.file.file == file
                &&& listed.file.delete_file_id == delete.delete_file_id
                &&& is_delete_file(delete, Ok(listed.file.delete_file))
                &&& listed.file.max_row_count == delete.delete_count
                &&& listed.file.row_id_start is None
                &&& listed.file.snapshot_id is None
                &&& listed.file.begin_snapshot is None
                &&& listed.file.schema_version is None
                &&& listed.file.partial_max is None
                &&& listed.file.delete_count is None
                &&& listed.file.partition_id is None
                &&& listed.file.partition_values@.len() == 0
            },
            Err(column) => is_delete_file(delete, Err(column)),
        },
{
    let delete_file_id = delete.delete_file_id;
    let max_row_count = delete.delete_count;
    match delete_file_of(delete) {
        Err(column) => Err(column),
        Ok(delete_file) => Ok(
            FileWithTable {
                schema_name,
                table_name,
                file: DuckLakeTableFile {
                    data_file_id,
                    file,
                    delete_file_id,
                    delete_file,
                    row_id_start: None,
                    snapshot_id: None,
                    begin_snapshot: None,
                    schema_version: None,
                    partial_max: None,
                    max_row_count,
                    delete_count: None,
                    partition_id: None,
                    partition_values: Vec::new(),
                },
            },
        ),
    }
}

// ---------------------------------------------------------------------------
// Columns and name mappings
// ---------------------------------------------------------------------------

/// Whether a column may hold nulls; it may where the catalog does not say.
pub fn is_nullable(nulls_allowed: Option<bool>) -> (nullable: bool)
    ensures
        nullable == (nulls_allowed != Some(false)),
{
    match nulls_allowed {
        Some(allowed) => allowed,
        None => true,
    }
}

/// The index of a partition or sort key; one that no index can be counts as the
/// first.
pub open spec fn key_index_of(value: i64) -> i32 {
    if i32::MIN <= value <= i32::MAX {
        value as i32
    } else {
        0
    }
}

/// Reads the index of a partition or sort key.
pub fn key_index(value: i64) -> (index: i32)
    ensures
        index == key_index_of(value),
{
    if i32::MIN as i64 <= value && value <= i32::MAX as i64 {
        value as i32
    } else {
        0
    }
}

/// A row of a name mapping: the mapping, and one of its entries where it has any.
#[derive(Debug, Clone, PartialEq, Eq)]
pub struct NameMappingRow {
    pub mapping_id: i64,
    pub table_id: i64,
    pub mapping_type: String,
    pub entry: Option<NameMappingEntryRow>,
}

/// An entry of a name mapping.
#[derive(Debug, Clone, PartialEq, Eq)]
pub struct NameMappingEntryRow {
    pub column_id: i64,
    pub source_name: String,
    pub target_field_id: i64,
    pub parent_column: Option<i64>,
    pub is_partition: Option<bool>,
}

/// The entry that a row of a name mapping records.
pub open spec fn mapping_entry(row: NameMappingEntryRow) -> DuckLakeNameMappingEntry {
    DuckLakeNameMappingEntry {
        column_id: row.column_id,
        source_name: row.source_name,
        target_field_id: row.target_field_id,
        parent_column: row.parent_column,
        is_partition: row.is_partition == Some(true),
    }
}

/// The entries that rows record, in their order.
pub open spec fn mapping_entries(rows: Seq<NameMappingRow>) -> Seq<DuckLakeNameMappingEntry>
    decreases rows.len(),
{
    if rows.len() == 0 {
        Seq::empty()
    } else {
        match rows.last().entry {
            Some(entry) => mapping_entries(rows.drop_last()).push(mapping_entry(entry)),
            None => mapping_entries(rows.drop_last()),
        }
    }
}

/// The error on a mapping that the catalog does not have.
pub open spec fn missing_mapping_text(mapping_id: i64) -> Seq<char> {
    "DuckLake name mapping "@ + int_text(mapping_id as int) + " does not exist"@
}

/// Decodes the rows of the name mapping that was asked for.
pub fn decode_name_mapping_rows(requested_mapping_id: i64, rows: Vec<NameMappingRow>) -> (out:
    Result<DuckLakeNameMapping, DuckLakeError>)
    ensures
        if rows@.len() == 0 {
            invalid_config(out, missing_mapping_text(requested_mapping_id))
        } else {
            &&& out matches Ok(mapping)
            &&& mapping.mapping_id == rows@[0].mapping_id
            &&& mapping.table_id == rows@[0].table_id
            &&& mapping.mapping_type@ == rows@[0].mapping_type@
            &&& mapping.entries@ == mapping_entries(rows@)
        },
{
    if rows.len() == 0 {
        let mut message = "DuckLake name mapping ".to_string();
        push_i64(&mut message, requested_mapping_id);
        message.append(" does not exist");
        return Err(DuckLakeError::InvalidConfig(message));
    }
    let mapping_id = rows[0].mapping_id;
    let table_id = rows[0].table_id;
    let mapping_type = rows[0].mapping_type.clone();
    let ghost all = rows@;
    let mut entries: Vec<DuckLakeNameMappingEntry> = Vec::new();
    assert(all.take(0) =~= Seq::empty());
    for row in it: rows
        invariant
            it.seq() == all,
            entries@ == mapping_entries(all.take(it.index() as int)),
    {
        assert(all.take(it.index() as int + 1).drop_last() =~= all.take(it.index() as int));
        if let Some(entry) = row.entry {
            let is_partition = match entry.is_partition {
                Some(partition) => partition,
                None => false,
            };
            entries.push(
                DuckLakeNameMappingEntry {
                    column_id: entry.column_id,
                    source_name: entry.source_name,
                    target_field_id: entry.target_field_id,
                    parent_column: entry.parent_column,
                    is_partition,
                },
            );
        }
    }
    assert(all.take(all.len() as int) =~= all);
    Ok(DuckLakeNameMapping { mapping_id, table_id, mapping_type, entries })
}

// ---------------------------------------------------------------------------
// Parts that older catalogs lack
// ---------------------------------------------------------------------------

/// The rows of a reply; none where a table is missing.
pub open spec fn rows_or_none<T>(reply: Reply<T>, out: Result<Vec<T>, String>) -> bool {
    match reply {
        Reply::Rows(rows) => out == Ok::<Vec<T>, String>(rows),
        Reply::Failure { message, missing_table } => if missing_table {
            out matches Ok(rows) && rows@.len() == 0
        } else {
            out == Err::<Vec<T>, String>(message)
        },
    }
}

/// Takes the rows of a reply, none where a table is missing; any other failure
/// stays one.
pub fn optional_rows<T>(reply: Reply<T>) -> (out: Result<Vec<T>, String>)
    ensures
        rows_or_none(reply, out),
{
    match reply {
        Reply::Rows(rows) => Ok(rows),
        Reply::Failure { message, missing_table } => {
            if missing_table {
                Ok(Vec::new())
            } else {
                Err(message)
            }
        },
    }
}

/// A row of a partition specification: its id, the index of a key, the column and
/// the transform.
pub type PartitionRow = (i64, i64, i64, String);

/// A row of a sort specification: its id, the index of a key, the expression, its
/// dialect, the direction and the place of nulls.
pub type SortRow = (i64, i64, String, String, String, String);

/// Whether files can be pruned by partition: only where the table has had one
/// partition specification ever, since a file says little of the one it follows.
pub fn prune_safe(generation_count: i64) -> (safe: bool)
    ensures
        safe == (generation_count == 1),
{
    generation_count == 1
}

/// What is known of the partitioning of a table.
#[derive(Debug, Clone, PartialEq, Eq)]
pub struct PartitionSpecRows {
    pub rows: Vec<(i64, i32, i64, String)>,
    pub prune_safe: bool,
}

/// Reads the partition specification of a table: nothing where the catalog has no
/// table for it.
pub fn partition_spec_rows(generations: Reply<i64>, rows: Reply<PartitionRow>) -> (out: Result<
    Option<PartitionSpecRows>,
    String,
>)
    requires
        generations matches Reply::Rows(counts) ==> counts@.len() == 1,
    ensures
        match (generations, rows) {
            (Reply::Failure { message, missing_table }, _) => if missing_table {
                out == Ok::<Option<PartitionSpecRows>, String>(None)
            } else {
                out == Err::<Option<PartitionSpecRows>, String>(message)
            },
            (_, Reply::Failure { message, missing_table }) => if missing_table {
                out == Ok::<Option<PartitionSpecRows>, String>(None)
            } else {
                out == Err::<Option<PartitionSpecRows>, String>(message)
            },
            (Reply::Rows(counts), Reply::Rows(rows)) => {
                &&& out matches Ok(Some(spec))
                &&& spec.prune_safe == (counts@[0] == 1)
                &&& spec.rows@ == rows@.map_values(
                    |row: PartitionRow| (row.0, key_index_of(row.1), row.2, row.3),
                )
            },
        },
{
    let generation_count = match generations {
        Reply::Rows(counts) => counts[0],
        Reply::Failure { message, missing_table } => {
            return if missing_table {
                Ok(None)
            } else {
                Err(message)
            };
        },
    };
    match rows {
        Reply::Failure { message, missing_table } => {
            if missing_table {
                Ok(None)
            } else {
                Err(message)
            }
        },
        Reply::Rows(rows) => {
            let ghost all = rows@;
            let mut parsed: Vec<(i64, i32, i64, String)> = Vec::new();
            for row in it: rows
                invariant
                    it.seq() == all,
                    parsed@.len() == it.index(),
                    forall|k: int|
                        0 <= k < it.index() ==> #[trigger] parsed@[k] == (
                            all[k].0,
                            key_index_of(all[k].1),
                            all[k].2,
                            all[k].3,
                        ),
            {
                parsed.push((row.0, key_index(row.1), row.2, row.3));
            }
            assert(parsed@ =~= all.map_values(
                |row: PartitionRow| (row.0, key_index_of(row.1), row.2, row.3),
            ));
            Ok(
                Some(
                    PartitionSpecRows { rows: parsed, prune_safe: prune_safe(generation_count) },
                ),
            )
        },
    }
}

/// Reads the sort specification of a table: nothing where the catalog has no table
/// for it.
pub fn sort_spec_rows(rows: Reply<SortRow>) -> (out: Result<
    Option<Vec<(i64, i32, String, String, String, String)>>,
    String,
>)
    ensures
        match rows {
            Reply::Failure { message, missing_table } => if missing_table {
                out matches Ok(None)
            } else {
                out matches Err(error) && error == message
            },
            Reply::Rows(rows) => {
                &&& out matches Ok(Some(parsed))
                &&& parsed@ == rows@.map_values(
                    |row: SortRow| (row.0, key_index_of(row.1), row.2, row.3, row.4, row.5),
                )
            },
        },
{
    match rows {
        Reply::Failure { message, missing_table } => {
            if missing_table {
                Ok(None)
            } else {
                Err(message)
            }
        },
        Reply::Rows(rows) => {
            let ghost all = rows@;
            let mut parsed: Vec<(i64, i32, String, String, String, String)> = Vec::new();
            for row in it: rows
                invariant
                    it.seq() == all,
                    parsed@.len() == it.index(),
                    forall|k: int|
                        0 <= k < it.index() ==> #[trigger] parsed@[k] == (
                            all[k].0,
                            key_index_of(all[k].1),
                            all[k].2,
                            all[k].3,
                            all[k].4,
                            all[k].5,
                        ),
            {
                parsed.push((row.0, key_index(row.1), row.2, row.3, row.4, row.5));
            }
            assert(parsed@ =~= all.map_values(
                |row: SortRow| (row.0, key_index_of(row.1), row.2, row.3, row.4, row.5),
            ));
            Ok(Some(parsed))
        },
    }
}

// ---------------------------------------------------------------------------
// Statistics of a table
// ---------------------------------------------------------------------------

/// A row of the statistics of the columns of a table.
#[derive(Debug, Clone, PartialEq, Eq)]
pub struct ColumnStatisticsRow {
    pub column_id: i64,
    pub contains_null: Option<bool>,
    pub min_value: Option<String>,
    pub max_value: Option<String>,
    pub contains_nan: Option<bool>,
}

/// The size that `sizes` record of a column: that of the last row that has one.
pub open spec fn size_of(sizes: Seq<(i64, Option<i64>)>, column_id: i64) -> Option<i64>
    decreases sizes.len(),
{
    if sizes.len() == 0 {
        None
    } else if sizes.last().0 == column_id && sizes.last().1 is Some {
        sizes.last().1
    } else {
        size_of(sizes.drop_last(), column_id)
    }
}

/// The statistics that a row records of a column, with its size and with whether
/// its bounds are those of the rows that can be read.
pub open spec fn column_statistics(
    row: ColumnStatisticsRow,
    column_size_bytes: Option<i64>,
    bounds_are_exact: bool,
) -> DuckLakeTableColumnStatistics {
    DuckLakeTableColumnStatistics {
        column_id: row.column_id,
        contains_null: row.contains_null,
        min_value: row.min_value,
        max_value: row.max_value,
        contains_nan: row.contains_nan,
        column_size_bytes,
        bounds_are_exact,
    }
}

fn sizes_by_column(sizes: Vec<(i64, Option<i64>)>) -> (out: HashMap<i64, i64>)
    ensures
        forall|id: i64| #[trigger]
            size_of(sizes@, id) == (if out@.contains_key(id) {
                Some(out@[id])
            } else {
                None
            }),
{
    let ghost all = sizes@;
    let mut out: HashMap<i64, i64> = HashMap::new();
    assert(all.take(0) =~= Seq::empty());
    for size in it: sizes
        invariant
            it.seq() == all,
            forall|id: i64| #[trigger]
                size_of(all.take(it.index() as int), id) == (if out@.contains_key(id) {
                    Some(out@[id])
                } else {
                    None
                }),
    {
        let ghost n = it.index() as int;
        let ghost before = out@;
        proof {
            assert(all.take(n + 1).drop_last() =~= all.take(n));
            assert(all.take(n + 1).last() == size);
        }
        if let Some(bytes) = size.1 {
            out.insert(size.0, bytes);
        }
        assert forall|id: i64| #[trigger]
            size_of(all.take(n + 1), id) == (if out@.contains_key(id) {
                Some(out@[id])
            } else {
                None
            }) by {
            assert(size_of(all.take(n), id) == (if before.contains_key(id) {
                Some(before[id])
            } else {
                None
            }));
        }
    }
    assert(all.take(all.len() as int) =~= all);
    out
}

fn first_row(rows: Vec<DuckLakeTableStatistics>) -> (first: Option<DuckLakeTableStatistics>)
    ensures
        first == if rows@.len() > 0 {
            Some(rows@[0])
        } else {
            None
        },
{
    if rows.len() > 0 {
        Some(rows[0])
    } else {
        None
    }
}

/// The rows of a reply that did not fail, as a sequence.
pub open spec fn reply_rows<T>(reply: Reply<T>) -> Seq<T> {
    match reply {
        Reply::Rows(rows) => rows@,
        Reply::Failure { .. } => Seq::empty(),
    }
}

/// The message of a reply that failed for another reason than a missing table.
pub open spec fn reply_error<T>(reply: Reply<T>) -> Option<String> {
    match reply {
        Reply::Failure { message, missing_table } => if missing_table {
            None
        } else {
            Some(message)
        },
        Reply::Rows(_) => None,
    }
}

/// The first of four errors.
pub open spec fn first_error(
    a: Option<String>,
    b: Option<String>,
    c: Option<String>,
    d: Option<String>,
) -> Option<String> {
    if a is Some {
        a
    } else if b is Some {
        b
    } else if c is Some {
        c
    } else {
        d
    }
}

/// The first row, where there is one.
pub open spec fn first_of<T>(rows: Seq<T>) -> Option<T> {
    if rows.len() > 0 {
        Some(rows[0])
    } else {
        None
    }
}

/// Whether a query that must succeed gave an error.
pub open spec fn flag_error(flag: Result<bool, String>) -> Option<String> {
    match flag {
        Ok(_) => None,
        Err(message) => Some(message),
    }
}

/// Puts together the summary of the statistics of a table, from the replies to the
/// four queries in their order.
pub fn summary_statistics(
    table: Reply<DuckLakeTableStatistics>,
    sizes: Reply<(i64, Option<i64>)>,
    bounds_are_exact: Result<bool, String>,
    columns: Reply<ColumnStatisticsRow>,
) -> (out: Result<DuckLakeStatistics, String>)
    ensures
        match first_error(
            reply_error(table),
            reply_error(sizes),
            flag_error(bounds_are_exact),
            reply_error(columns),
        ) {
            Some(message) => out == Err::<DuckLakeStatistics, String>(message),
            None => {
                &&& out matches Ok(statistics)
                &&& statistics.table == first_of(reply_rows(table))
                &&& statistics.columns@ == reply_rows(columns).map_values(
                    |row: ColumnStatisticsRow|
                        column_statistics(
                            row,
                            size_of(reply_rows(sizes), row.column_id),
                            bounds_are_exact->Ok_0,
                        ),
                )
                &&& statistics.files@.len() == 0
            },
        },
{
    let table = match optional_rows(table) {
        Ok(rows) => first_row(rows),
        Err(message) => return Err(message),
    };
    let ghost size_rows = reply_rows(sizes);
    let sizes = match optional_rows(sizes) {
        Ok(rows) => {
            assert(rows@ =~= size_rows);
            sizes_by_column(rows)
        },
        Err(message) => return Err(message),
    };
    let exact = match bounds_are_exact {
        Ok(exact) => exact,
        Err(message) => return Err(message),
    };
    let ghost all = reply_rows(columns);
    let rows = match optional_rows(columns) {
        Ok(rows) => rows,
        Err(message) => return Err(message),
    };
    assert(rows@ =~= all);
    let mut columns: Vec<DuckLakeTableColumnStatistics> = Vec::new();
    for row in it: rows
        invariant
            it.seq() == all,
            columns@.len() == it.index(),
            forall|id: i64| #[trigger]
                size_of(size_rows, id) == (if sizes@.contains_key(id) {
                    Some(sizes@[id])
                } else {
                    None
                }),
            forall|k: int|
                0 <= k < it.index() ==> #[trigger] columns@[k] == column_statistics(
                    all[k],
                    size_of(size_rows, all[k].column_id),
                    exact,
                ),
    {
        assert(row == all[it.index() as int]);
        assert(size_of(size_rows, row.column_id) == size_of(size_rows, row.column_id));
        let column_size_bytes = match sizes.get(&row.column_id) {
            Some(size) => Some(*size),
            None => None,
        };
        columns.push(
            DuckLakeTableColumnStatistics {
                column_id: row.column_id,
                contains_null: row.contains_null,
                min_value: row.min_value,
                max_value: row.max_value,
                contains_nan: row.contains_nan,
                column_size_bytes,
                bounds_are_exact: exact,
            },
        );
    }
    assert(columns@ =~= all.map_values(
        |row: ColumnStatisticsRow|
            column_statistics(row, size_of(size_rows, row.column_id), exact),
    ));
    Ok(DuckLakeStatistics { table, columns, files: Vec::new() })
}

/// Puts together the statistics of a table with those of its files, from the
/// replies to the three queries in their order. The bounds of a column say nothing
/// of the rows that are left.
pub fn table_statistics(
    table: Reply<DuckLakeTableStatistics>,
    columns: Reply<ColumnStatisticsRow>,
    files: Reply<DuckLakeFileColumnStatistics>,
) -> (out: Result<DuckLakeStatistics, String>)
    ensures
        match first_error(reply_error(table), reply_error(columns), reply_error(files), None) {
            Some(message) => out == Err::<DuckLakeStatistics, String>(message),
            None => {
                &&& out matches Ok(statistics)
                &&& statistics.table == first_of(reply_rows(table))
                &&& statistics.columns@ == reply_rows(columns).map_values(
                    |row: ColumnStatisticsRow| column_statistics(row, None, false),
                )
                &&& statistics.files@ == reply_rows(files)
            },
        },
{
    let table = match optional_rows(table) {
        Ok(rows) => first_row(rows),
        Err(message) => return Err(message),
    };
    let ghost all = reply_rows(columns);
    let rows = match optional_rows(columns) {
        Ok(rows) => rows,
        Err(message) => return Err(message),
    };
    assert(rows@ =~= all);
    let mut columns: Vec<DuckLakeTableColumnStatistics> = Vec::new();
    for row in it: rows
        invariant
            it.seq() == all,
            columns@.len() == it.index(),
            forall|k: int|
                0 <= k < it.index() ==> #[trigger] columns@[k] == column_statistics(
                    all[k],
                    None,
                    false,
                ),
    {
        columns.push(
            DuckLakeTableColumnStatistics {
                column_id: row.column_id,
                contains_null: row.contains_null,
                min_value: row.min_value,
                max_value: row.max_value,
                contains_nan: row.contains_nan,
                column_size_bytes: None,
                bounds_are_exact: false,
            },
        );
    }
    assert(columns@ =~= all.map_values(
        |row: ColumnStatisticsRow| column_statistics(row, None, false),
    ));
    let files = match optional_rows(files) {
        Ok(rows) => rows,
        Err(message) => return Err(message),
    };
    Ok(DuckLakeStatistics { table, columns, files })
}

// ---------------------------------------------------------------------------
// The data path
// ---------------------------------------------------------------------------

/// The data path of a catalog, which must have one.
pub fn required_data_path(data_path: Option<String>) -> (out: Result<String, DuckLakeError>)
    ensures
        match data_path {
            Some(path) => out == Ok::<String, DuckLakeError>(path),
            None => invalid_config(out, MISSING_DATA_PATH@),
        },
{
    match data_path {
        Some(path) => Ok(path),
        None => Err(DuckLakeError::InvalidConfig(MISSING_DATA_PATH.to_string())),
    }
}

/// The error on a catalog without a data path.
pub const MISSING_DATA_PATH: &'static str =
    "Missing required catalog metadata: 'data_path' not configured. The catalog may be uninitialized or corrupted.";

// ---------------------------------------------------------------------------
// What the rows say
// ---------------------------------------------------------------------------

/// A row has a delete file if, and only if, it has the id of one. Of a delete file the
/// path, the kind of path and the size have to be there, and each is taken over as it
/// is; the others may be missing. It is never read through a mapping.
pub proof fn lemma_delete_file(
    row: DeleteFileRow,
    out: Result<Option<DuckLakeFileData>, EmptyColumn>,
)
    requires
        is_delete_file(row, out),
    ensures
        out is Err <==> row.delete_file_id is Some && (row.path is None || row.path_is_relative
            is None || row.file_size_bytes is None),
        out matches Ok(None) <==> row.delete_file_id is None,
        out matches Ok(Some(file)) ==> row.path == Some(file.path) && row.path_is_relative == Some(
            file.path_is_relative,
        ) && row.file_size_bytes == Some(file.file_size_bytes) && file.footer_size
            == row.footer_size && file.encryption_key == row.encryption_key && file.mapping_id
            is None,
        out matches Err(EmptyColumn::Path) ==> row.path is None,
        out matches Err(EmptyColumn::PathIsRelative) ==> row.path_is_relative is None && row.path
            is Some,
        out matches Err(EmptyColumn::FileSizeBytes) ==> row.file_size_bytes is None && row.path
            is Some && row.path_is_relative is Some,
{
}

/// An index that fits is kept as it is. Any other number counts as the index `0`.
pub proof fn lemma_key_index(value: i64)
    ensures
        -2147483648 <= value <= 2147483647 ==> key_index_of(value) == value,
        !(-2147483648 <= value <= 2147483647) ==> key_index_of(value) == 0,
{
}

/// Whether rows of a mapping hold that entry at that place.
pub open spec fn has_entry_at(rows: Seq<NameMappingRow>, i: int) -> bool {
    0 <= i < rows.len() && rows[i].entry is Some
}

/// A mapping has an entry for each row that holds one, and no other: rows without one
/// are passed over, and the others keep their order and what they say. A column counts
/// as one of the partition only where the row says so.
pub proof fn lemma_mapping_entries(rows: Seq<NameMappingRow>)
    ensures
        exists|from: Seq<int>|
            {
                &&& #[trigger] from.len() == mapping_entries(rows).len()
                &&& crate::order::ascending(from)
                &&& forall|k: int|
                    0 <= k < from.len() ==> has_entry_at(rows, #[trigger] from[k])
                        && mapping_entries(rows)[k].column_id == rows[from[k]].entry->0.column_id
                        && mapping_entries(rows)[k].source_name
                        == rows[from[k]].entry->0.source_name && mapping_entries(
                        rows,
                    )[k].target_field_id == rows[from[k]].entry->0.target_field_id
                        && mapping_entries(rows)[k].parent_column
                        == rows[from[k]].entry->0.parent_column && (mapping_entries(
                        rows,
                    )[k].is_partition <==> rows[from[k]].entry->0.is_partition == Some(true))
                &&& forall|i: int| #[trigger] has_entry_at(rows, i) ==> from.contains(i)
            },
    decreases rows.len(),
{
    if rows.len() == 0 {
        let from = Seq::<int>::empty();
        assert(from.len() == mapping_entries(rows).len());
    } else {
        let rest = rows.drop_last();
        let n = rows.len() - 1;
        lemma_mapping_entries(rest);
        let before = choose|from: Seq<int>|
            {
                &&& #[trigger] from.len() == mapping_entries(rest).len()
                &&& crate::order::ascending(from)
                &&& forall|k: int|
                    0 <= k < from.len() ==> has_entry_at(rest, #[trigger] from[k])
                        && mapping_entries(rest)[k].column_id == rest[from[k]].entry->0.column_id
                        && mapping_entries(rest)[k].source_name
                        == rest[from[k]].entry->0.source_name && mapping_entries(
                        rest,
                    )[k].target_field_id == rest[from[k]].entry->0.target_field_id
                        && mapping_entries(rest)[k].parent_column
                        == rest[from[k]].entry->0.parent_column && (mapping_entries(
                        rest,
                    )[k].is_partition <==> rest[from[k]].entry->0.is_partition == Some(true))
                &&& forall|i: int| #[trigger] has_entry_at(rest, i) ==> from.contains(i)
            };
        if rows[n].entry is Some {
            let from = before.push(n);
            assert forall|i: int| #[trigger] has_entry_at(rows, i) implies from.contains(i) by {
                if i < n {
                    assert(has_entry_at(rest, i));
                    let k = choose|k: int| 0 <= k < before.len() && before[k] == i;
                    assert(from[k] == i);
                } else {
                    assert(from[before.len() as int] == i);
                }
            }
            assert forall|k: int| 0 <= k < from.len() implies has_entry_at(rows, #[trigger] from[k])
                by {
                if k < before.len() {
                    assert(has_entry_at(rest, before[k]));
                }
            }
            assert forall|k: int, l: int| 0 <= k < l < from.len() implies (#[trigger] from[k])
                < #[trigger] from[l] by {
                if l == before.len() {
                    assert(has_entry_at(rest, before[k]));
                }
            }
            assert forall|k: int| 0 <= k < from.len() implies mapping_entries(rows)[k]
                == mapping_entry(rows[#[trigger] from[k]].entry->0) || k < before.len() by {
            }
            assert forall|k: int| 0 <= k < before.len() implies mapping_entries(rows)[k]
                == mapping_entries(rest)[k] && rows[before[k]] == rest[before[k]] && from[k]
                == #[trigger] before[k] by {
                assert(has_entry_at(rest, before[k]));
            }
            assert(from.len() == mapping_entries(rows).len());
        } else {
            assert forall|i: int| #[trigger] has_entry_at(rows, i) implies before.contains(i) by {
                assert(has_entry_at(rest, i));
            }
            assert forall|k: int| 0 <= k < before.len() implies has_entry_at(
                rows,
                #[trigger] before[k],
            ) && rows[before[k]] == rest[before[k]] by {
                assert(has_entry_at(rest, before[k]));
            }
            assert(before.len() == mapping_entries(rows).len());
        }
    }
}

/// The size of a column is that of the last row that gives one, wherever a row does.
pub proof fn lemma_column_size(sizes: Seq<(i64, Option<i64>)>, column_id: i64)
    ensures
        size_of(sizes, column_id) matches Some(size) ==> exists|i: int|
            0 <= i < sizes.len() && (#[trigger] sizes[i]) == (column_id, Some(size)) && forall|j: int|
                i < j < sizes.len() ==> (#[trigger] sizes[j]).0 != column_id || sizes[j].1 is None,
        size_of(sizes, column_id) is None <==> forall|j: int|
            0 <= j < sizes.len() ==> (#[trigger] sizes[j]).0 != column_id || sizes[j].1 is None,
    decreases sizes.len(),
{
    if sizes.len() > 0 {
        let rest = sizes.drop_last();
        let n = sizes.len() - 1;
        lemma_column_size(rest, column_id);
        if sizes[n].0 == column_id && sizes[n].1 is Some {
            assert(sizes[n] == (column_id, Some(size_of(sizes, column_id)->0)));
        } else if let Some(size) = size_of(rest, column_id) {
            let i = choose|i: int|
                0 <= i < rest.len() && (#[trigger] rest[i]) == (column_id, Some(size)) && forall|
                    j: int,
                |
                    i < j < rest.len() ==> (#[trigger] rest[j]).0 != column_id || rest[j].1 is None;
            assert(sizes[i] == (column_id, Some(size)));
            assert forall|j: int| i < j < sizes.len() implies (#[trigger] sizes[j]).0 != column_id
                || sizes[j].1 is None by {
                if j < n {
                    assert(rest[j] == sizes[j]);
                }
            }
        } else {
            assert forall|j: int| 0 <= j < sizes.len() implies (#[trigger] sizes[j]).0 != column_id
                || sizes[j].1 is None by {
                if j < n {
                    assert(rest[j] == sizes[j]);
                }
            }
        }
        if forall|j: int|
            0 <= j < sizes.len() ==> (#[trigger] sizes[j]).0 != column_id || sizes[j].1 is None {
            assert forall|j: int| 0 <= j < rest.len() implies (#[trigger] rest[j]).0 != column_id
                || rest[j].1 is None by {
                assert(rest[j] == sizes[j]);
            }
            assert(sizes[n].0 != column_id || sizes[n].1 is None);
        }
    }
}

/// The statistics of a column are those of its row. Its size and whether its bounds can
/// be relied on come from elsewhere.
pub proof fn lemma_column_statistics(
    row: ColumnStatisticsRow,
    column_size_bytes: Option<i64>,
    bounds_are_exact: bool,
)
    ensures
        ({
            let statistics = column_statistics(row, column_size_bytes, bounds_are_exact);
            &&& statistics.column_id == row.column_id
            &&& statistics.contains_null == row.contains_null
            &&& statistics.contains_nan == row.contains_nan
            &&& statistics.min_value == row.min_value
            &&& statistics.max_value == row.max_value
            &&& statistics.column_size_bytes == column_size_bytes
            &&& statistics.bounds_are_exact <==> bounds_are_exact
        }),
{
}

/// A reply is passed over only where a table is missing. Any other failure is reported,
/// and it is that of the first query that failed.
pub proof fn lemma_failures_are_reported<A, B, C>(
    a: Reply<A>,
    b: Reply<B>,
    flag: Result<bool, String>,
    c: Reply<C>,
)
    ensures
        reply_error(a) is Some <==> (a matches Reply::Failure { missing_table, .. }
            && !missing_table),
        reply_error(a) matches Some(text) ==> (a matches Reply::Failure { message, .. } && text
            == message),
        flag_error(flag) is Some <==> flag is Err,
        flag_error(flag) matches Some(text) ==> flag == Err::<bool, String>(text),
        ({
            let first = first_error(
                reply_error(a),
                reply_error(b),
                flag_error(flag),
                reply_error(c),
            );
            &&& first is None <==> reply_error(a) is None && reply_error(b) is None && flag is Ok
                && reply_error(c) is None
            &&& reply_error(a) is Some ==> first == reply_error(a)
            &&& reply_error(a) is None && reply_error(b) is Some ==> first == reply_error(b)
            &&& reply_error(a) is None && reply_error(b) is None && flag is Err ==> first
                == Some(flag->Err_0)
        }),
        (a matches Reply::Rows(rows) ==> reply_rows(a) == rows@),
        a is Failure ==> reply_rows(a).len() == 0,
        first_of(reply_rows(a)) is Some <==> (a matches Reply::Rows(rows) && rows@.len() > 0),
        first_of(reply_rows(a)) matches Some(row) ==> (a matches Reply::Rows(rows) && rows@[0]
            == row),
{
}

/// The rows of a query are handed on as they are; a missing table counts as no rows.
pub proof fn lemma_optional_rows<T>(reply: Reply<T>, out: Result<Vec<T>, String>)
    requires
        rows_or_none(reply, out),
    ensures
        out is Err <==> (reply matches Reply::Failure { missing_table, .. } && !missing_table),
        out matches Ok(rows) ==> match reply {
            Reply::Rows(given) => rows == given,
            Reply::Failure { .. } => rows@.len() == 0,
        },
        out matches Err(text) ==> (reply matches Reply::Failure { message, .. } && message == text),
{
}

} // verus!
