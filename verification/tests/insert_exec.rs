use datafusion_ducklake::error::DuckLakeError;
use datafusion_ducklake::insert_exec::{
    make_insert_count_schema, DuckLakeInsertExec, InsertStep, WriteMode,
};
use datafusion_ducklake::types::DataType;

fn insert(write_mode: WriteMode, partitioned: bool) -> DuckLakeInsertExec {
    DuckLakeInsertExec {
        schema_name: "main".to_string(),
        table_name: "events".to_string(),
        write_mode,
        partitioned,
    }
}

#[test]
fn test_insert_count_schema() {
    let schema = make_insert_count_schema();
    assert_eq!(schema.len(), 1);
    assert_eq!(schema[0].name, "count");
    assert_eq!(schema[0].data_type, DataType::UInt64);
}

#[test]
fn an_empty_append_writes_nothing() {
    assert_eq!(insert(WriteMode::Append, false).collected(&vec![]), InsertStep::Report(0));
    assert_eq!(insert(WriteMode::Append, true).collected(&vec![]), InsertStep::Report(0));
}

#[test]
fn an_empty_replacement_still_writes() {
    assert_eq!(insert(WriteMode::Replace, false).collected(&vec![]), InsertStep::WriteSession);
    assert_eq!(insert(WriteMode::Replace, true).collected(&vec![]), InsertStep::WriteSession);
    assert_eq!(insert(WriteMode::Replace, false).collected(&vec![0, 0]), InsertStep::WriteSession);
}

#[test]
fn rows_are_written_by_partition_where_the_table_has_any() {
    assert_eq!(insert(WriteMode::Append, false).collected(&vec![0, 3]), InsertStep::WriteRows);
    let partitioned = insert(WriteMode::Append, true);
    assert_eq!(partitioned.collected(&vec![0, 3]), InsertStep::Split);
    assert_eq!(partitioned.split(&vec![0, 3], 2), InsertStep::WritePartitioned);
    assert_eq!(partitioned.split(&vec![0, 3], 0), InsertStep::WriteRows);
    assert_eq!(partitioned.split(&vec![0], 0), InsertStep::WriteSession);
    assert_eq!(partitioned.written(3), InsertStep::Report(3));
}

#[test]
fn an_insert_has_one_partition() {
    let insert = insert(WriteMode::Replace, false);
    assert_eq!(insert.check_partition(0), Ok(()));
    assert_eq!(
        insert.check_partition(2),
        Err(DuckLakeError::Internal(
            "DuckLakeInsertExec only supports partition 0, got 2".to_string()
        ))
    );
    assert_eq!(insert.display(), "DuckLakeInsertExec: schema=main, table=events, mode=Replace");
}
