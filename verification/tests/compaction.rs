use datafusion_ducklake::compaction::{
    partition_key, partition_value_pairs, plan_merge, CompactionResult, MergeOptions,
};
use datafusion_ducklake::compaction_commit::{
    finish_merge, finish_rewrite, merge_output, rewrite_candidates, row_counts_fit,
    source_display, stamped_origin, viable_bins, writable_schema, CompactionSourceFile, SourceRetirement,
};
use datafusion_ducklake::error::DuckLakeError;
use datafusion_ducklake::metadata::{DuckLakeFileData, DuckLakeTableFile};
use datafusion_ducklake::sort::{
    compaction_ordering, NullOrder, SortDirection, SortField, SortKey, SortSpec,
};

fn file(data_file_id: i64, size: i64, begin_snapshot: i64) -> DuckLakeTableFile {
    DuckLakeTableFile {
        data_file_id,
        file: DuckLakeFileData {
            path: format!("{data_file_id}.parquet"),
            path_is_relative: true,
            file_size_bytes: size,
            footer_size: None,
            encryption_key: None,
            mapping_id: None,
        },
        delete_file_id: None,
        delete_file: None,
        row_id_start: None,
        snapshot_id: None,
        begin_snapshot: Some(begin_snapshot),
        schema_version: Some(1),
        partial_max: None,
        max_row_count: None,
        delete_count: None,
        partition_id: None,
        partition_values: vec![],
    }
}

fn partitioned(data_file_id: i64, value: &str) -> DuckLakeTableFile {
    let mut file = file(data_file_id, 10, 1);
    file.partition_id = Some(4);
    file.partition_values = vec![(0, Some(value.to_string()))];
    file
}

fn options(target_file_size: u64, max_merged_files: usize, min_file_size: u64) -> MergeOptions {
    MergeOptions { target_file_size, max_merged_files, min_file_size }
}

fn sort_field(index: i32, column: Option<&str>, dialect: &str) -> SortField {
    SortField {
        sort_key_index: index,
        expression: column.unwrap_or("lower(id)").to_string(),
        column: column.map(|name| name.to_string()),
        dialect: dialect.to_string(),
        direction: SortDirection::Asc,
        null_order: NullOrder::NullsLast,
    }
}

#[test]
fn empty_result_did_no_work() {
    let empty = CompactionResult::empty();
    assert!(!empty.did_work());
    assert_eq!(empty, CompactionResult { files_processed: 0, files_created: 0, rows_written: 0 });
    // Retiring files counts, though nothing is written in their place.
    assert!(CompactionResult { files_processed: 1, files_created: 0, rows_written: 0 }.did_work());
}

#[test]
fn compaction_ordering_rejects_expression_sort_key() {
    let spec = SortSpec { sort_id: 7, fields: vec![sort_field(0, None, "duckdb")] };
    let err = compaction_ordering(&vec!["id".to_string()], &Some(spec))
        .expect_err("expression sort key must be rejected");
    assert_eq!(
        err.description(),
        "Invalid configuration: DuckLake sort order 7 contains an unsupported expression; \
         datafusion-ducklake can write only bare-column sort keys"
    );
}

#[test]
fn compaction_ordering_resolves_columns_by_name() {
    let columns = vec!["a".to_string(), "id".to_string()];
    let spec = SortSpec { sort_id: 7, fields: vec![sort_field(0, Some("id"), "duckdb")] };
    assert_eq!(
        compaction_ordering(&columns, &Some(spec)),
        Ok(Some(vec![SortKey {
            index: 1,
            name: "id".to_string(),
            descending: false,
            nulls_first: false,
        }]))
    );
    assert_eq!(compaction_ordering(&columns, &None), Ok(None));
    let spec = SortSpec { sort_id: 7, fields: vec![] };
    assert_eq!(compaction_ordering(&columns, &Some(spec)), Ok(None));
    let spec = SortSpec { sort_id: 7, fields: vec![sort_field(0, Some("gone"), "duckdb")] };
    assert_eq!(
        compaction_ordering(&columns, &Some(spec)),
        Err(DuckLakeError::InvalidConfig(
            "DuckLake sort key 'gone' is not present in the rewrite schema".to_string()
        ))
    );
}

#[test]
fn the_default_target_is_half_a_gibibyte() {
    let defaults = MergeOptions::default();
    assert_eq!(defaults.target_file_size, 512 * 1024 * 1024);
}

#[test]
fn small_neighbours_are_merged_up_to_the_target() {
    let files = vec![file(1, 40, 1), file(2, 40, 1), file(3, 40, 2), file(4, 40, 2)];
    // A bin is closed by the file with which it reaches the target.
    assert_eq!(plan_merge(&files, &options(80, 1000, 0)), vec![vec![0, 1], vec![2, 3]]);
    assert_eq!(plan_merge(&files, &options(100, 1000, 0)), vec![vec![0, 1, 2]]);
    assert_eq!(plan_merge(&files, &options(1000, 1000, 0)), vec![vec![0, 1, 2, 3]]);
    assert_eq!(plan_merge(&files, &options(1000, 3, 0)), vec![vec![0, 1, 2]]);
    // One file is never merged alone, and none is merged that is too large or too small.
    assert_eq!(plan_merge(&files[..1].to_vec(), &options(1000, 1000, 0)), Vec::<Vec<usize>>::new());
    assert_eq!(plan_merge(&files, &options(40, 1000, 0)), Vec::<Vec<usize>>::new());
    assert_eq!(plan_merge(&files, &options(1000, 1000, 41)), Vec::<Vec<usize>>::new());
}

#[test]
fn only_files_of_one_partition_and_schema_are_merged() {
    let files = vec![
        partitioned(1, "x"),
        partitioned(2, "y"),
        partitioned(3, "x"),
        partitioned(4, "y"),
        file(5, 10, 1),
    ];
    assert_eq!(plan_merge(&files, &options(1000, 1000, 0)), vec![vec![0, 2], vec![1, 3]]);
    let mut newer = file(2, 10, 1);
    newer.schema_version = Some(2);
    assert_eq!(
        plan_merge(&vec![file(1, 10, 1), newer], &options(1000, 1000, 0)),
        Vec::<Vec<usize>>::new()
    );
}

#[test]
fn files_with_deletes_or_merged_origins_are_left_alone() {
    let mut deleted = file(2, 10, 1);
    deleted.delete_file_id = Some(9);
    let mut merged = file(3, 10, 1);
    merged.partial_max = Some(2);
    let mut unknown = file(4, 10, 1);
    unknown.begin_snapshot = None;
    let files = vec![file(1, 10, 1), deleted, merged, unknown, file(5, 10, 1)];
    assert_eq!(plan_merge(&files, &options(1000, 1000, 0)), vec![vec![0, 4]]);
}

#[test]
fn partition_values_are_ordered_by_their_key() {
    let mut mixed = file(1, 10, 1);
    mixed.partition_id = Some(4);
    mixed.partition_values = vec![(1, Some("b".to_string())), (0, None)];
    assert_eq!(partition_key(&mixed), (Some(4), vec![None, Some("b".to_string())]));
    assert_eq!(
        partition_value_pairs(&vec![None, Some("b".to_string())]),
        vec![(0, None), (1, Some("b".to_string()))]
    );
}

#[test]
fn a_merge_across_snapshots_records_the_origin_of_its_rows() {
    let files = vec![file(1, 10, 5), file(2, 10, 3), file(3, 10, 3)];
    let across = merge_output(&files, &vec![0, 1]).expect("a shape");
    assert!(across.partial);
    assert_eq!(across.partial_max, Some(5));
    assert_eq!(across.begin_snapshot, Some(3));
    assert_eq!(stamped_origin(&across, 0), Some(5));
    assert_eq!(stamped_origin(&across, 1), Some(3));
    let within = merge_output(&files, &vec![1, 2]).expect("a shape");
    assert!(!within.partial);
    assert_eq!(within.partial_max, None);
    assert_eq!(stamped_origin(&within, 0), None);
    let mut unknown = file(4, 10, 1);
    unknown.begin_snapshot = None;
    assert_eq!(
        merge_output(&vec![unknown], &vec![0]),
        Err(DuckLakeError::Internal("merge candidate missing begin_snapshot".to_string()))
    );
}

#[test]
fn a_merge_retires_every_source_and_records_what_was_written() {
    let files = vec![file(1, 10, 5), file(2, 10, 3), file(3, 10, 3), file(4, 10, 3)];
    let bins = vec![vec![0, 1], vec![2, 3]];
    let shapes: Vec<_> = bins.iter().map(|bin| merge_output(&files, bin).expect("a shape")).collect();
    let commit = finish_merge(&files, &bins, &shapes, &vec![Some(7), None]).expect("a commit");
    let ids: Vec<i64> = commit.sources.iter().map(|source| source.data_file_id).collect();
    assert_eq!(ids, vec![1, 2, 3, 4]);
    assert_eq!(commit.outputs.len(), 1);
    assert_eq!(commit.outputs[0].replaces, 0);
    assert_eq!(commit.outputs[0].record_count, 7);
    assert_eq!(commit.outputs[0].partial_max, Some(5));
    assert_eq!(commit.outputs[0].begin_snapshot, Some(3));
    assert_eq!(commit.retirement, SourceRetirement::Remove);
    assert_eq!(
        commit.result,
        CompactionResult { files_processed: 4, files_created: 1, rows_written: 7 }
    );
    assert_eq!(finish_merge(&files, &vec![], &vec![], &vec![]), None);
}

#[test]
fn a_rewrite_takes_the_files_with_enough_deletes() {
    let mut deleted = file(2, 10, 3);
    deleted.delete_file_id = Some(20);
    deleted.partition_id = Some(4);
    deleted.partition_values = vec![(0, Some("x".to_string()))];
    deleted.max_row_count = Some(100);
    let mut few = file(3, 10, 3);
    few.delete_file_id = Some(30);
    let files = vec![file(1, 10, 3), deleted, few];
    let over = vec![true, true, false];
    assert_eq!(rewrite_candidates(&files, &None, &over), vec![1]);
    // Files that are asked for by their ids are taken whatever was deleted.
    assert_eq!(rewrite_candidates(&files, &Some(vec![3]), &over), vec![2]);
    let commit = finish_rewrite(&files, &vec![1], &vec![Some(6)]).expect("a commit");
    assert_eq!(
        commit.sources,
        vec![CompactionSourceFile { data_file_id: 2, delete_file_id: Some(20) }]
    );
    assert_eq!(commit.outputs[0].record_count, 6);
    assert_eq!(commit.outputs[0].partition_id, Some(4));
    assert_eq!(commit.outputs[0].partition_values, vec![(0, Some("x".to_string()))]);
    assert_eq!(commit.retirement, SourceRetirement::Retire);
    assert_eq!(finish_rewrite(&files, &vec![], &vec![]), None);
    // A file whose rows are all deleted is retired without an output.
    let emptied = finish_rewrite(&files, &vec![1], &vec![None]).expect("a commit");
    assert!(emptied.outputs.is_empty());
    assert!(emptied.result.did_work());
}

#[test]
fn bins_that_would_lose_columns_are_left_alone() {
    let bins = vec![vec![0, 1], vec![2, 3]];
    assert_eq!(viable_bins(&bins, &vec![true, false]), vec![vec![2, 3]]);
}

#[test]
fn compaction_needs_a_writer() {
    assert_eq!(writable_schema("merge", true, Some("main".to_string())), Ok("main".to_string()));
    assert_eq!(
        writable_schema("merge_adjacent_files", false, Some("main".to_string())),
        Err(DuckLakeError::InvalidConfig(
            "merge_adjacent_files: table is read-only; open the catalog with a writer".to_string()
        ))
    );
    assert_eq!(
        writable_schema("merge", true, None),
        Err(DuckLakeError::Internal("writable table has no schema name".to_string()))
    );
    assert_eq!(source_display("a.parquet", Some(3)), "CompactionSourceExec: file=a.parquet, origin=3");
    assert_eq!(source_display("a.parquet", None), "CompactionSourceExec: file=a.parquet, origin=none");
}

#[test]
fn the_cap_takes_files_by_version_and_id_before_partitions() {
    // Two partitions, by turns: the first two files share none.
    let files = vec![
        partitioned(1, "b"),
        partitioned(2, "a"),
        partitioned(3, "b"),
        partitioned(4, "a"),
    ];
    assert_eq!(plan_merge(&files, &options(100, 2, 0)), Vec::<Vec<usize>>::new());
    // Of the first three, those of one partition are merged.
    assert_eq!(plan_merge(&files, &options(100, 3, 0)), vec![vec![0, 2]]);
    // All of them: the bins come by partition, and in each by id.
    assert_eq!(plan_merge(&files, &options(100, 4, 0)), vec![vec![1, 3], vec![0, 2]]);
    // An older schema version is taken first, whatever the id.
    let mut files = files;
    for (position, file) in files.iter_mut().enumerate() {
        file.schema_version = Some(if position < 2 { 2 } else { 1 });
    }
    files[3].partition_values = vec![(0, Some("b".to_string()))];
    assert_eq!(plan_merge(&files, &options(100, 2, 0)), vec![vec![2, 3]]);
}

#[test]
fn row_counts_are_added_up_where_they_fit() {
    assert!(row_counts_fit(&vec![]));
    assert!(row_counts_fit(&vec![Some(i64::MAX), None, Some(0)]));
    assert!(!row_counts_fit(&vec![Some(i64::MAX), None, Some(1)]));
    // Every sum on the way counts.
    assert!(!row_counts_fit(&vec![Some(i64::MAX), Some(1), Some(-1)]));
}
