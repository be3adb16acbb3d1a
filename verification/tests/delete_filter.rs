use std::collections::HashSet;

use datafusion_ducklake::delete_filter::{DeleteFilterExec, Precision};
use datafusion_ducklake::error::DuckLakeError;

fn filter(deleted: &[i64], max_row_count: Option<usize>) -> DeleteFilterExec {
    let deleted: HashSet<i64> = deleted.iter().copied().collect();
    DeleteFilterExec::try_new(2, "a.parquet".to_string(), deleted, 1, max_row_count, Ok(()))
        .expect("a filter")
}

/// The values that are left of a batch, by the positions of its rows.
fn survivors(filter: &DeleteFilterExec, values: &[i32], positions: &[i64]) -> Vec<i32> {
    match filter.filter_batch(&positions.to_vec()) {
        None => values.to_vec(),
        Some(kept) => kept.iter().map(|&row| values[row as usize]).collect(),
    }
}

#[test]
fn clamps_rows_past_the_recorded_row_count() {
    let filter = filter(&[4], Some(3));
    assert_eq!(survivors(&filter, &[1, 2, 3, 4, 5], &[0, 1, 2, 3, 4]), vec![1, 2, 3]);
}

#[test]
fn clamps_a_negative_position_when_the_row_count_is_known() {
    let filter = filter(&[], Some(2));
    assert_eq!(survivors(&filter, &[1, 2], &[-1, 0]), vec![2]);
}

#[test]
fn deletes_row_at_listed_position() {
    let filter = filter(&[1, 1000], None);
    assert_eq!(survivors(&filter, &[1, 2, 3, 4], &[0, 1, 2, 3]), vec![1, 3, 4]);
}

#[test]
fn keeps_all_when_no_position_matches() {
    let filter = filter(&[1000, 2000], None);
    assert_eq!(survivors(&filter, &[10, 20, 30], &[0, 1, 2]), vec![10, 20, 30]);
    assert_eq!(filter.filter_batch(&vec![0, 1, 2]), None);
}

#[test]
fn deletes_by_physical_position_not_arrival_order() {
    let filter = filter(&[11, 1000], None);
    assert_eq!(
        survivors(&filter, &[100, 200, 300, 400], &[10, 11, 12, 13]),
        vec![100, 300, 400]
    );
}

#[test]
fn the_position_column_has_to_be_there() {
    assert_eq!(
        DeleteFilterExec::try_new(2, "a.parquet".to_string(), HashSet::new(), 2, None, Ok(())).err(),
        Some(DuckLakeError::Internal(
            "DeleteFilterExec: position index 2 is out of range for an input of 2 columns"
                .to_string()
        ))
    );
    assert_eq!(filter(&[1, 5], None).display(), "DeleteFilterExec: file=a.parquet, deletes=2");
}

/// The row count of a whole file stays exact; positions that the file does not
/// have take nothing off.
#[test]
fn deletes_come_off_the_row_count() {
    let filter = filter(&[1, 3, 1000, -1], None);
    assert_eq!(filter.deleted_in_range(4), 2);
    assert_eq!(
        filter.statistics_from_inputs(Precision::Exact(4), Precision::Exact(80), false),
        (Precision::Exact(2), Precision::Inexact(80))
    );
    assert_eq!(
        filter.statistics_from_inputs(Precision::Exact(4), Precision::Absent, true),
        (Precision::Inexact(4), Precision::Absent)
    );
    assert_eq!(
        filter.statistics_from_inputs(Precision::Inexact(4), Precision::Absent, false),
        (Precision::Inexact(4), Precision::Absent)
    );
}

#[test]
fn a_column_without_positions_is_refused() {
    let refusal = || Err(DuckLakeError::Internal("column 1 holds no positions".to_string()));
    let name = || "a.parquet".to_string();
    assert_eq!(
        DeleteFilterExec::try_new(2, name(), HashSet::new(), 1, None, refusal()).err(),
        Some(DuckLakeError::Internal("column 1 holds no positions".to_string()))
    );
    // A column that is not there comes first.
    assert_eq!(
        DeleteFilterExec::try_new(1, name(), HashSet::new(), 1, None, refusal()).err(),
        Some(DuckLakeError::Internal(
            "DeleteFilterExec: position index 1 is out of range for an input of 1 columns"
                .to_string()
        ))
    );
}

#[test]
fn a_filter_without_deletes_or_row_count_drops_nothing() {
    assert!(filter(&[], None).drops_nothing());
    assert!(!filter(&[3], None).drops_nothing());
    assert!(!filter(&[], Some(10)).drops_nothing());
}
