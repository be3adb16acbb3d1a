use datafusion_ducklake::capabilities::CapabilityMemo;
use datafusion_ducklake::catalog_rows::{
    decode_file_with_table, decode_name_mapping_rows, decode_table_file, is_nullable, key_index,
    optional_rows, partition_spec_rows, required_data_path, sort_spec_rows, summary_statistics,
    table_statistics, ColumnStatisticsRow, DeleteFileRow, EmptyColumn, NameMappingEntryRow,
    NameMappingRow, TableFileRow,
};
use datafusion_ducklake::error::DuckLakeError;
use datafusion_ducklake::file_page::{
    attach_statistics, begin_page, finish_select, id_list, partition_value_range, FilePage, Reply,
};
use datafusion_ducklake::metadata::{
    DuckLakeFileColumnStatistics, DuckLakeFileData, DuckLakeTableStatistics,
};
use datafusion_ducklake::metadata_provider_sqlite::SchemaCapabilities;
use datafusion_ducklake::nan_pruning_barrier::NanPruningBarrierExec;
use datafusion_ducklake::partition::{partition_path_names, PartitionColumn, PartitionSpec};

fn file_data() -> DuckLakeFileData {
    DuckLakeFileData {
        path: "a.parquet".to_string(),
        path_is_relative: true,
        file_size_bytes: 10,
        footer_size: None,
        encryption_key: None,
        mapping_id: Some(5),
    }
}

fn delete(delete_file_id: Option<i64>, path: Option<&str>) -> DeleteFileRow {
    DeleteFileRow {
        delete_file_id,
        path: path.map(|path| path.to_string()),
        path_is_relative: Some(true),
        file_size_bytes: Some(3),
        footer_size: None,
        encryption_key: None,
        delete_count: Some(2),
    }
}

fn table_file(data_file_id: i64, delete: DeleteFileRow) -> TableFileRow {
    TableFileRow {
        data_file_id,
        file: file_data(),
        row_id_start: Some(0),
        record_count: Some(100),
        delete,
        begin_snapshot: Some(1),
        partial_max: None,
        schema_version: Some(1),
        partition_id: None,
    }
}

fn failure<T>(missing_table: bool) -> Reply<T> {
    Reply::Failure { message: "broken".to_string(), missing_table }
}

fn statistics(data_file_id: i64, column_id: i64) -> DuckLakeFileColumnStatistics {
    DuckLakeFileColumnStatistics {
        data_file_id,
        column_id,
        column_size_bytes: Some(8),
        value_count: None,
        null_count: None,
        min_value: None,
        max_value: None,
        contains_nan: None,
    }
}

fn strings(values: &[&str]) -> Vec<String> {
    values.iter().map(|value| value.to_string()).collect()
}

#[test]
fn a_row_without_a_delete_file_has_none() {
    let decoded = decode_table_file(table_file(1, delete(None, None)), 9).expect("a file");
    assert_eq!(decoded.delete_file, None);
    assert_eq!(decoded.delete_count, None);
    assert_eq!(decoded.snapshot_id, Some(9));
    assert_eq!(decoded.max_row_count, Some(100));

    let decoded = decode_table_file(table_file(1, delete(Some(4), Some("d.parquet"))), 9).expect("a file");
    assert_eq!(decoded.delete_file_id, Some(4));
    assert_eq!(decoded.delete_count, Some(2));
    let delete_file = decoded.delete_file.expect("a delete file");
    assert_eq!(delete_file.path, "d.parquet");
    assert_eq!(delete_file.mapping_id, None);

    assert_eq!(
        decode_table_file(table_file(1, delete(Some(4), None)), 9),
        Err(EmptyColumn::Path)
    );
    let with_table = decode_file_with_table(
        "main".to_string(),
        "events".to_string(),
        1,
        file_data(),
        delete(Some(4), Some("d.parquet")),
    )
    .expect("a file");
    assert_eq!(with_table.table_name, "events");
    assert_eq!(with_table.file.delete_file_id, Some(4));
}

#[test]
fn odd_values_of_the_catalog_have_a_reading() {
    assert!(is_nullable(None));
    assert!(!is_nullable(Some(false)));
    assert_eq!(key_index(3), 3);
    assert_eq!(key_index(i64::MAX), 0);
    assert_eq!(required_data_path(Some("/lake".to_string())), Ok("/lake".to_string()));
    assert!(matches!(required_data_path(None), Err(DuckLakeError::InvalidConfig(_))));
}

#[test]
fn a_name_mapping_has_to_exist() {
    let entry = NameMappingEntryRow {
        column_id: 0,
        source_name: "id".to_string(),
        target_field_id: 1,
        parent_column: None,
        is_partition: None,
    };
    let row = |entry| NameMappingRow {
        mapping_id: 5,
        table_id: 2,
        mapping_type: "map_by_name".to_string(),
        entry,
    };
    let mapping = decode_name_mapping_rows(5, vec![row(Some(entry))]).expect("a mapping");
    assert_eq!(mapping.entries.len(), 1);
    assert!(!mapping.entries[0].is_partition);
    assert!(decode_name_mapping_rows(5, vec![row(None)]).expect("a mapping").entries.is_empty());
    assert_eq!(
        decode_name_mapping_rows(5, vec![]),
        Err(DuckLakeError::InvalidConfig("DuckLake name mapping 5 does not exist".to_string()))
    );
}

#[test]
fn a_missing_table_holds_no_rows() {
    assert_eq!(optional_rows::<i64>(failure(true)), Ok(vec![]));
    assert_eq!(optional_rows::<i64>(failure(false)), Err("broken".to_string()));
    assert_eq!(optional_rows(Reply::Rows(vec![1])), Ok(vec![1]));
}

#[test]
fn partitions_prune_where_there_was_only_one_specification() {
    let rows = || Reply::Rows(vec![(7, 0, 3, "identity".to_string())]);
    let spec = partition_spec_rows(Reply::Rows(vec![1]), rows()).expect("a reply").expect("a spec");
    assert!(spec.prune_safe);
    assert_eq!(spec.rows, vec![(7, 0, 3, "identity".to_string())]);
    let spec = partition_spec_rows(Reply::Rows(vec![2]), rows()).expect("a reply").expect("a spec");
    assert!(!spec.prune_safe);
    assert_eq!(partition_spec_rows(failure(true), rows()), Ok(None));
    assert_eq!(partition_spec_rows(failure(false), rows()), Err("broken".to_string()));
    assert_eq!(sort_spec_rows(failure(true)), Ok(None));
}

#[test]
fn statistics_of_a_table_are_put_together() {
    let table = DuckLakeTableStatistics { record_count: Some(100), file_size_bytes: Some(10) };
    let column = ColumnStatisticsRow {
        column_id: 3,
        contains_null: Some(false),
        min_value: Some("1".to_string()),
        max_value: Some("9".to_string()),
        contains_nan: None,
    };
    let summary = summary_statistics(
        Reply::Rows(vec![table]),
        Reply::Rows(vec![(3, Some(8))]),
        Ok(true),
        Reply::Rows(vec![column.clone()]),
    )
    .expect("a summary");
    assert_eq!(summary.table, Some(table));
    assert_eq!(summary.columns[0].column_size_bytes, Some(8));
    assert!(summary.columns[0].bounds_are_exact);
    let full = table_statistics(
        failure(true),
        Reply::Rows(vec![column]),
        Reply::Rows(vec![statistics(1, 3)]),
    )
    .expect("statistics");
    assert_eq!(full.table, None);
    assert_eq!(full.files.len(), 1);
    assert_eq!(
        table_statistics(failure(false), failure(true), failure(true)),
        Err("broken".to_string())
    );
}

#[test]
fn a_page_collects_what_belongs_to_its_files() {
    let listed: Vec<_> = [3, 5]
        .iter()
        .map(|&id| decode_table_file(table_file(id, delete(None, None)), 9).expect("a file"))
        .collect();
    assert_eq!(id_list(&listed), "3, 5");
    assert_eq!(partition_value_range(&listed), Some((3, 5)));
    assert_eq!(partition_value_range(&vec![]), None);
    let selected = finish_select(
        listed.clone(),
        Reply::Rows(vec![(5, (0, Some("x".to_string()))), (4, (0, None))]),
    )
    .expect("files");
    assert!(selected[0].partition_values.is_empty());
    assert_eq!(selected[1].partition_values, vec![(0, Some("x".to_string()))]);
    assert_eq!(finish_select(listed.clone(), failure(false)), Err("broken".to_string()));

    let attached = attach_statistics(listed.clone(), vec![statistics(5, 1), statistics(3, 1)]);
    assert_eq!(attached[0].column_statistics[0].data_file_id, 3);

    let page = begin_page(Some(2), 10, false).expect("a page");
    assert!(matches!(page, FilePage::Listing { after: 2, limit: 10, .. }));
    let page = page
        .listed(Reply::Rows(listed))
        .with_statistics(Reply::Rows(vec![statistics(5, 1)]))
        .with_partition_values(failure(true));
    match page {
        FilePage::Done { page } => {
            assert_eq!(page.len(), 2);
            assert!(page[0].column_statistics.is_empty());
            assert_eq!(page[1].column_statistics.len(), 1);
        }
        _ => panic!("the page is not complete"),
    }
}

#[test]
fn a_page_has_a_size() {
    assert!(matches!(begin_page(None, 0, true), Ok(FilePage::Done { .. })));
    assert!(matches!(
        begin_page(None, usize::MAX, true),
        Err(DuckLakeError::InvalidConfig(message)) if message == "file metadata page limit exceeds i64"
    ));
    let empty = begin_page(None, 5, true).expect("a page").listed(Reply::Rows(vec![]));
    assert!(matches!(empty, FilePage::Done { page } if page.is_empty()));
}

/// Only a catalog that has every part is remembered: one without may gain them.
#[test]
fn full_capabilities_are_remembered() {
    let full = SchemaCapabilities {
        data_file_partial_max: true,
        delete_file_partial_max: true,
        data_file_partition_id: true,
        schema_versions: true,
        inlined_data_tables: true,
        views: true,
    };
    let partial = SchemaCapabilities { views: false, ..full };
    let mut memo: CapabilityMemo<SchemaCapabilities> = CapabilityMemo::new();
    memo.learn(partial);
    assert!(!memo.is_cached());
    memo.learn(full);
    assert!(memo.is_cached());
    assert_eq!(memo.recall(), Some(full));
}

#[test]
fn keys_of_a_partition_have_the_names_of_their_columns() {
    let spec = PartitionSpec {
        partition_id: 7,
        columns: vec![
            PartitionColumn { partition_key_index: 0, column_id: 3, transform: "identity".to_string() },
            PartitionColumn { partition_key_index: 1, column_id: 1, transform: "year".to_string() },
        ],
        prune_safe: true,
    };
    let names = strings(&["id", "name", "region"]);
    let ids = vec![1, 2, 3];
    assert_eq!(partition_path_names(&Some(spec.clone()), 7, &ids, &names), strings(&["region", "id"]));
    assert_eq!(partition_path_names(&Some(spec.clone()), 8, &ids, &names), Vec::<String>::new());
    assert_eq!(partition_path_names(&None, 7, &ids, &names), Vec::<String>::new());
    // A key whose column is gone has no name, so none is given.
    assert_eq!(partition_path_names(&Some(spec), 7, &vec![1, 2], &names), Vec::<String>::new());
}

#[test]
fn predicates_on_nan_columns_stay_above_the_barrier() {
    let barrier = NanPruningBarrierExec::new(strings(&["f", "a", "f"]));
    assert_eq!(barrier.display(), "NanPruningBarrierExec: unsafe_columns=[a, f]");
    assert_eq!(barrier.allowed_indices(&strings(&["id", "f", "g"])), vec![0, 2]);
    assert!(barrier.blocks_sort(&vec![strings(&["id"]), strings(&["f"])]));
    assert!(!barrier.blocks_sort(&vec![strings(&["id"])]));
}
