use datafusion_ducklake::data_paths::{
    group_data_paths, merge_data_path_groups, prefix_matches, registered_data_path_group,
    sweep_roots, DataPath, DataPathGroup,
};
use datafusion_ducklake::error::DuckLakeError;
use datafusion_ducklake::maintenance::{
    clears_tombstone, object_key, run_cleanup, run_orphan_cleanup, Cleanup, CleanupCriteria,
    Deletion, ObjectEntry, ScheduledFile,
};
use datafusion_ducklake::timestamps::{format_sql_timestamp, UtcTimestamp};

fn at(seconds: i64, nanos: u32) -> UtcTimestamp {
    UtcTimestamp { seconds, nanos }
}

fn scheduled(data_file_id: i64) -> ScheduledFile {
    ScheduledFile { data_file_id, path: format!("{data_file_id}.parquet"), path_is_relative: true }
}

fn data_path(data_path: &str, authority: &str, base_key: &str) -> DataPath {
    DataPath {
        data_path: data_path.to_string(),
        authority: authority.to_string(),
        base_key: base_key.to_string(),
    }
}

fn group(authority: &str, object_path: &str, data_paths: &[&str]) -> DataPathGroup {
    DataPathGroup {
        authority: authority.to_string(),
        object_path: object_path.to_string(),
        data_paths: data_paths.iter().map(|path| path.to_string()).collect(),
    }
}

#[test]
fn timestamps_are_written_to_the_microsecond() {
    assert_eq!(
        format_sql_timestamp(&at(1704067200, 0)),
        Some("2024-01-01 00:00:00.000000".to_string())
    );
    assert_eq!(
        format_sql_timestamp(&at(1700000000, 500_000_999)),
        Some("2023-11-14 22:13:20.500000".to_string())
    );
    // What cannot be a date is not written.
    // A leap second is the sixty-first of its minute; no other second goes on.
    assert_eq!(
        format_sql_timestamp(&at(1483228799, 1_250_000_000)),
        Some("2016-12-31 23:59:60.250000".to_string())
    );
    assert!(
        format_sql_timestamp(&at(1483228799, 1_250_000_000))
            < format_sql_timestamp(&at(1483228800, 0))
    );
    assert_eq!(format_sql_timestamp(&at(1483228800, 1_250_000_000)), None);
    assert_eq!(format_sql_timestamp(&at(1483228799, 2_000_000_000)), None);
    assert_eq!(format_sql_timestamp(&at(i64::MAX, 0)), None);
    // Earlier is smaller, as a moment and as text.
    assert!(at(1700000000, 1000).is_before(&at(1700000000, 2000)));
    assert!(!at(1700000000, 2000).is_before(&at(1700000000, 2000)));
    assert!(format_sql_timestamp(&at(1700000000, 1000)) < format_sql_timestamp(&at(1700000000, 2000)));
}

#[test]
fn a_path_becomes_the_key_of_its_object() {
    assert_eq!(object_key("/lake//main/a.parquet"), "lake/main/a.parquet");
    assert_eq!(object_key("/lake/a b#c.parquet"), "lake/a b%23c.parquet");
}

#[test]
fn rows_are_removed_once_every_object_is_gone() {
    let files = vec![scheduled(1), scheduled(2)];
    let resolved = vec!["/lake/1.parquet".to_string(), "/lake/2.parquet".to_string()];
    let state = run_cleanup(&files, resolved.clone(), false);
    assert!(matches!(&state, Cleanup::Deleting { keys, next: 0, .. } if keys[0] == "lake/1.parquet"));
    let state = state.step(Deletion::Deleted).step(Deletion::NotFound);
    assert_eq!(state, Cleanup::RemoveRows { ids: vec![1, 2], paths: resolved.clone() });
    assert_eq!(
        run_cleanup(&files, resolved.clone(), true),
        Cleanup::Done { paths: resolved.clone() }
    );
    assert_eq!(run_cleanup(&vec![], vec![], false), Cleanup::Done { paths: vec![] });
    // A failure leaves all rows, so that the cleanup can be run again.
    let failed = run_cleanup(&files, resolved, false)
        .step(Deletion::Deleted)
        .step(Deletion::Failed("denied".to_string()));
    assert_eq!(failed, Cleanup::Failed { message: "denied".to_string() });
}

#[test]
fn only_unreferenced_objects_are_orphans() {
    let entry = |location: &str, seconds: i64| ObjectEntry {
        location: location.to_string(),
        last_modified: at(seconds, 0),
    };
    let entries = vec![entry("lake/a.parquet", 10), entry("lake/b.parquet", 10), entry("lake/c.parquet", 30)];
    let referenced = vec!["/lake/b.parquet".to_string()];
    assert_eq!(
        run_orphan_cleanup(&entries, &referenced, &CleanupCriteria::All, true),
        Cleanup::Done { paths: vec!["/lake/a.parquet".to_string(), "/lake/c.parquet".to_string()] }
    );
    let older = CleanupCriteria::OlderThan(at(20, 0));
    let state = run_orphan_cleanup(&entries, &referenced, &older, false);
    assert_eq!(
        state.step(Deletion::Deleted),
        Cleanup::Done { paths: vec!["/lake/a.parquet".to_string()] }
    );
    assert_eq!(
        run_orphan_cleanup(&vec![], &referenced, &older, false),
        Cleanup::Done { paths: vec![] }
    );
}

#[test]
fn the_tombstone_goes_with_a_full_sweep() {
    assert!(clears_tombstone(&CleanupCriteria::All, false));
    assert!(!clears_tombstone(&CleanupCriteria::All, true));
    assert!(!clears_tombstone(&CleanupCriteria::OlderThan(at(0, 0)), false));
}

#[test]
fn data_paths_are_grouped_by_place() {
    let groups = group_data_paths(vec![
        data_path("s3://a/x/", "s3://a", "x"),
        data_path("s3://b/y", "s3://b", "y"),
        data_path("s3://a/x", "s3://a", "x"),
    ]);
    assert_eq!(
        groups,
        vec![group("s3://a", "x", &["s3://a/x/", "s3://a/x"]), group("s3://b", "y", &["s3://b/y"])]
    );
}

#[test]
fn a_place_below_another_is_swept_with_it() {
    assert!(prefix_matches("lake/main", "lake"));
    assert!(prefix_matches("lake", "lake"));
    assert!(!prefix_matches("lakeside", "lake"));
    assert!(prefix_matches("anything", ""));
    let roots = merge_data_path_groups(vec![
        group("s3://a", "lake", &["q"]),
        group("s3://a", "lake/main", &["p"]),
        group("s3://b", "lake/main", &["r"]),
    ]);
    assert_eq!(
        roots,
        vec![group("s3://a", "lake", &["q", "p"]), group("s3://b", "lake/main", &["r"])]
    );
}

#[test]
fn a_sweep_stays_in_one_store() {
    assert_eq!(
        sweep_roots(vec![]),
        Err(DuckLakeError::InvalidConfig(
            "Missing required catalog metadata: 'data_path' not configured.".to_string()
        ))
    );
    let spread = vec![data_path("s3://a/x", "s3://a", "x"), data_path("s3://b/y", "s3://b", "y")];
    assert_eq!(
        sweep_roots(spread),
        Err(DuckLakeError::InvalidConfig(
            "Multicatalog data paths span multiple object-store authorities; clean each path \
             with delete_orphaned_files_in_data_path"
                .to_string()
        ))
    );
    let roots = sweep_roots(vec![
        data_path("s3://a/x/y", "s3://a", "x/y"),
        data_path("s3://a/x", "s3://a", "x"),
    ])
    .expect("a root");
    assert_eq!(roots, vec![group("s3://a", "x", &["s3://a/x", "s3://a/x/y"])]);
}

#[test]
fn only_a_registered_data_path_is_swept() {
    let groups = vec![group("s3://a", "x", &["s3://a/x/"])];
    assert_eq!(registered_data_path_group(&groups, "s3://a/x/"), Ok(groups[0].clone()));
    assert_eq!(
        registered_data_path_group(&groups, "s3://\"b\"\n"),
        Err(DuckLakeError::InvalidConfig(
            "Data path \"s3://\\\"b\\\"\\n\" is not registered for multicatalog cleanup".to_string()
        ))
    );
}
