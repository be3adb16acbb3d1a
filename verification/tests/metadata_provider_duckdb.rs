use datafusion_ducklake::duckdb_values::{
    duckdb_inlined_scalar, duckdb_owned_scalar, Decoded, DuckdbValue, Wording,
};
use datafusion_ducklake::file_page::{begin_page, FilePage, Reply};
use datafusion_ducklake::metadata::{
    DataFileChange, DuckLakeFileData, DuckLakeTableFile, RenderedColumnFilter,
};
use datafusion_ducklake::metadata_provider_duckdb::{
    added_deletes_sql, data_files_sql_filtered, duckdb_castable_pattern, file_page_sql,
    files_added_since, get_table_columns_sql, inlined_data_sql, inlined_deletes_sql,
    inlined_rows_sql, is_missing_statistics_table, list_all_columns_sql,
    page_partition_values_sql, page_statistics_sql, parse_partial_file_info_max, quote_ident,
    table_info_sql, DuckdbStatsDialect, SchemaCapabilities,
};
use datafusion_ducklake::types::{DataType, Field, TimeUnit};
use sqlx::{AssertSqlSafe, Connection, Row, SqliteConnection};

/// The listing of a table's data files, with the delete file of each.
const DATA_FILES: &str = "
    SELECT
        data.data_file_id,
        data.path
    FROM ducklake_data_file AS data
    LEFT JOIN ducklake_delete_file AS del
        ON data.data_file_id = del.data_file_id
        AND del.table_id = ?
        AND ? >= del.begin_snapshot
        AND (? < del.end_snapshot OR del.end_snapshot IS NULL)
    WHERE data.table_id = ?
      AND ? >= data.begin_snapshot
      AND (? < data.end_snapshot OR data.end_snapshot IS NULL)";

/// The `?` outside of string literals.
fn placeholders_outside_literals(sql: &str) -> usize {
    let mut in_literal = false;
    let mut count = 0;
    for byte in sql.bytes() {
        match byte {
            b'\'' => in_literal = !in_literal,
            b'?' if !in_literal => count += 1,
            _ => {}
        }
    }
    count
}

/// `a > 5 AND a < 10` on an integer column.
fn int_range(column_id: i64) -> RenderedColumnFilter {
    let dialect = DuckdbStatsDialect;
    let alias = format!("col_{column_id}_stats");
    let max = dialect
        .try_cast(&format!("{alias}.max_value"), "5", &DataType::Int32)
        .expect("filter renders for DuckDB");
    let min = dialect
        .try_cast(&format!("{alias}.min_value"), "10", &DataType::Int32)
        .expect("filter renders for DuckDB");
    let condition = format!(
        "(({alias}.data_file_id IS NULL OR (({alias}.value_count IS NULL OR \
         {alias}.value_count > 0) AND ({alias}.min_value IS NULL OR {alias}.max_value IS NULL OR \
         ({max} > 5) AND ({min} < 10))))) IS NOT FALSE"
    );
    let stats = vec!["min_value".to_string(), "max_value".to_string(), "value_count".to_string()];
    RenderedColumnFilter { alias, stats, column_id, condition }
}

fn data_file(data_file_id: i64) -> DuckLakeTableFile {
    DuckLakeTableFile {
        data_file_id,
        file: DuckLakeFileData {
            path: format!("f{data_file_id}.parquet"),
            path_is_relative: true,
            file_size_bytes: 10,
            footer_size: Some(1),
            encryption_key: None,
            mapping_id: None,
        },
        delete_file_id: None,
        delete_file: None,
        row_id_start: Some(0),
        snapshot_id: Some(0),
        begin_snapshot: None,
        schema_version: None,
        partial_max: None,
        max_row_count: Some(100),
        delete_count: None,
        partition_id: None,
        partition_values: vec![],
    }
}

fn failure<T>(message: &str) -> Reply<T> {
    let missing_table = is_missing_statistics_table(message);
    Reply::Failure { message: message.to_string(), missing_table }
}

fn no_capabilities() -> SchemaCapabilities {
    SchemaCapabilities {
        data_file_partial_max: false,
        delete_file_partial_max: false,
        inlined_data_tables: false,
        views: false,
        column_initial_default: false,
        column_default_value: false,
        column_default_value_type: false,
        column_default_value_dialect: false,
    }
}

fn page_ids(page: FilePage) -> Vec<i64> {
    match page {
        FilePage::Done { page } => page.iter().map(|file| file.file.data_file_id).collect(),
        _ => panic!("the page is not complete"),
    }
}

#[test]
fn two_conjunct_integer_filter_renders_official_shape() {
    let sql = data_files_sql_filtered(DATA_FILES, 3, &vec![int_range(7)])
        .expect("filter splices into the listing");
    assert!(
        sql.starts_with(
            "WITH col_7_stats AS (\n        SELECT data_file_id, min_value, max_value, value_count\n        \
             FROM ducklake_file_column_stats\n        WHERE column_id = 7 AND table_id = 3\n    )"
        ),
        "unexpected CTE section:\n{sql}"
    );
    assert!(
        sql.contains("\n    LEFT JOIN col_7_stats ON col_7_stats.data_file_id = data.data_file_id"),
        "unexpected join:\n{sql}"
    );
    assert!(
        sql.ends_with(
            "\n      AND ((col_7_stats.data_file_id IS NULL OR \
             ((col_7_stats.value_count IS NULL OR col_7_stats.value_count > 0) AND \
             (col_7_stats.min_value IS NULL OR col_7_stats.max_value IS NULL OR \
             (CASE WHEN regexp_full_match(col_7_stats.max_value, '^-?[0-9]{1,20}$') \
             THEN TRY_CAST(col_7_stats.max_value AS INTEGER) END > 5) AND \
             (CASE WHEN regexp_full_match(col_7_stats.min_value, '^-?[0-9]{1,20}$') \
             THEN TRY_CAST(col_7_stats.min_value AS INTEGER) END < 10))))) IS NOT FALSE"
        ),
        "unexpected condition:\n{sql}"
    );
    assert_eq!(placeholders_outside_literals(&sql), 6, "placeholder count changed");
}

/// A legacy catalog: DuckDB refuses the narrowed listing because the table of
/// statistics is not there, and the whole listing takes its place.
#[test]
fn missing_statistics_table_is_recognised_and_falls_back() {
    let error = "Catalog Error: Table with name ducklake_file_column_stats does not exist!";
    assert!(is_missing_statistics_table(error), "unrecognised error: {error}");
    assert!(error.contains("ducklake_file_column_stats"));

    let page = begin_page(None, 10, true).expect("a page").listed(failure(error));
    assert!(matches!(page, FilePage::Listing { narrowed: false, .. }));
    let page = page.listed(Reply::Rows(vec![data_file(1)]));
    let page = page.with_statistics(failure(error)).with_partition_values(Reply::Rows(vec![]));
    assert_eq!(page_ids(page).len(), 1);
}

#[test]
fn nested_inlined_value_converts_between_arrow_versions() {
    let values =
        DuckdbValue::List(vec![DuckdbValue::Int(1), DuckdbValue::Int(2), DuckdbValue::Int(3)]);
    let target = DataType::List(Box::new(DataType::Int32));
    let wording = Wording {
        column: "tags".to_string(),
        data_type: "List(Int32)".to_string(),
        value_type: "List(Int32)".to_string(),
        remediation: "flush the inlined rows".to_string(),
    };
    assert_eq!(
        duckdb_inlined_scalar(&values, &target, &wording),
        Decoded::List(vec![Decoded::Int32(1), Decoded::Int32(2), Decoded::Int32(3)])
    );
}

/// The columns that a legacy catalog does not have are read as `NULL`, in both
/// listings.
#[test]
fn legacy_columns_without_defaults_are_null_projected() {
    let runtime = tokio::runtime::Builder::new_current_thread().build().expect("a runtime");
    runtime.block_on(async {
        let mut conn = SqliteConnection::connect("sqlite::memory:").await.expect("a catalog");
        sqlx::raw_sql(
            "CREATE TABLE ducklake_schema (
                schema_id BIGINT, schema_name VARCHAR, begin_snapshot BIGINT, end_snapshot BIGINT
            );
            CREATE TABLE ducklake_table (
                table_id BIGINT, schema_id BIGINT, table_name VARCHAR,
                begin_snapshot BIGINT, end_snapshot BIGINT
            );
            CREATE TABLE ducklake_column (
                column_id BIGINT, table_id BIGINT, column_order BIGINT, column_name VARCHAR,
                column_type VARCHAR, nulls_allowed BOOLEAN, parent_column BIGINT,
                begin_snapshot BIGINT, end_snapshot BIGINT
            );
            INSERT INTO ducklake_schema VALUES (1, 'main', 1, NULL);
            INSERT INTO ducklake_table VALUES (2, 1, 'events', 1, NULL);
            INSERT INTO ducklake_column VALUES (3, 2, 0, 'id', 'int64', false, NULL, 1, NULL);",
        )
        .execute(&mut conn)
        .await
        .expect("a fixture");

        let row = sqlx::query(AssertSqlSafe(get_table_columns_sql(no_capabilities())))
            .bind(2i64)
            .bind(1i64)
            .bind(1i64)
            .fetch_one(&mut conn)
            .await
            .expect("the columns of a table");
        let table_defaults = (
            row.get::<Option<String>, _>(5),
            row.get::<Option<String>, _>(6),
            row.get::<Option<String>, _>(7),
            row.get::<Option<String>, _>(8),
        );
        assert_eq!(table_defaults, (None, None, None, None));

        let row = sqlx::query(AssertSqlSafe(list_all_columns_sql(no_capabilities())))
            .bind(1i64)
            .bind(1i64)
            .bind(1i64)
            .bind(1i64)
            .bind(1i64)
            .bind(1i64)
            .fetch_one(&mut conn)
            .await
            .expect("the columns of all tables");
        let listed_defaults = (
            row.get::<String, _>(0),
            row.get::<String, _>(1),
            row.get::<Option<String>, _>(7),
            row.get::<Option<String>, _>(8),
            row.get::<Option<String>, _>(9),
            row.get::<Option<String>, _>(10),
        );
        assert_eq!(
            listed_defaults,
            ("main".to_string(), "events".to_string(), None, None, None, None)
        );
    });
}

#[test]
fn parses_multi_pair_info() {
    assert_eq!(parse_partial_file_info_max("2:1|3:2|4:3"), Some(4));
}

#[test]
fn parses_single_pair_info() {
    assert_eq!(parse_partial_file_info_max("7:100"), Some(7));
}

#[test]
fn malformed_info_is_none() {
    assert_eq!(parse_partial_file_info_max(""), None);
    assert_eq!(parse_partial_file_info_max("nonsense"), None);
}

#[test]
fn out_of_range_temporal_constants_are_declined() {
    let renders = |constant: &str, data_type: DataType| {
        DuckdbStatsDialect
            .try_cast("col_7_stats.min_value", constant, &data_type)
            .map(|bound| format!("{bound} < '{constant}'"))
    };

    let canonical =
        renders("2024-01-01", DataType::Date32).expect("a canonical date still pushes down");
    assert!(
        canonical.contains(
            "CASE WHEN regexp_full_match(col_7_stats.min_value, '^[0-9]{4}-[0-9]{2}-[0-9]{2}$') \
             THEN TRY_CAST(col_7_stats.min_value AS DATE) END < '2024-01-01'"
        ),
        "unexpected condition: {canonical}"
    );
    assert!(renders("+12921-08-18", DataType::Date32).is_none());

    let naive = || DataType::Timestamp(TimeUnit::Microsecond, None);
    assert!(renders("2023-11-14 22:13:20", naive()).is_some());
    assert!(renders("+12902-08-18 13:20:00", naive()).is_none());
    let zoned = || DataType::Timestamp(TimeUnit::Microsecond, Some("UTC".to_string()));
    assert!(renders("2023-11-14 22:13:20+00", zoned()).is_some());
    assert!(renders("+12902-08-18 13:20:00+00", zoned()).is_none());

    // DuckDB converts the constant eagerly; what it then says is no missing table.
    let error = "Conversion Error: invalid date field format: \"+12921-08-18\", \
                 expected format is (YYYY-MM-DD)";
    assert!(!is_missing_statistics_table(error), "{error}");
}

/// Any failure of the narrowed listing is answered by the whole one, not only a
/// missing table.
#[test]
fn filtered_listing_retries_unfiltered_after_any_error() {
    let error = "Parser Error: syntax error at or near \"-\"";
    assert!(
        !is_missing_statistics_table(error),
        "this error is one the narrow guard already caught: {error}"
    );
    let page = begin_page(None, 10, true).expect("a page").listed(failure(error));
    assert!(matches!(page, FilePage::Listing { narrowed: false, .. }));
    let page = page
        .listed(Reply::Rows(vec![data_file(1), data_file(2)]))
        .with_statistics(Reply::Rows(vec![]))
        .with_partition_values(Reply::Rows(vec![]));
    assert_eq!(page_ids(page), vec![1, 2]);

    // The whole listing is not asked for twice.
    let page = begin_page(None, 10, false).expect("a page").listed(failure(error));
    assert!(matches!(page, FilePage::Failed { .. }));
}

/// A filtered page reads the statistics of its own files; the range of an
/// unfiltered one reaches every row below its last file.
#[test]
fn filtered_page_reads_no_statistics_for_pruned_files() {
    let survivors = vec![data_file(6)];
    let filtered = page_statistics_sql(&survivors, true);
    assert!(filtered.contains("AND stats.data_file_id IN (6)"), "{filtered}");
    assert!(!page_statistics_sql(&survivors, false).contains("IN ("));
    assert!(page_partition_values_sql("Q", &survivors, true).contains("data_file_id IN (6)"));

    let page = begin_page(None, 100, true)
        .expect("a page")
        .listed(Reply::Rows(survivors))
        .with_statistics(Reply::Rows(vec![]))
        .with_partition_values(Reply::Rows(vec![]));
    assert_eq!(page_ids(page), vec![6]);

    // An undecodable row in the range of an unfiltered page fails it.
    let page = begin_page(None, 100, false)
        .expect("a page")
        .listed(Reply::Rows((1..=6).map(data_file).collect()))
        .with_statistics(failure("Invalid column type Null at index: 1, name: column_id"));
    assert!(matches!(page, FilePage::Failed { .. }));
}

/// The test on the text of a float bound admits `inf` and not `nan`, whose
/// comparisons are all false.
#[test]
fn a_nan_float_bound_is_not_read() {
    let pattern = duckdb_castable_pattern(&DataType::Float64).expect("floats are guarded");
    let guard = regex::Regex::new(pattern).expect("a valid pattern");
    for admitted in ["9.0", "1.0", "-inf", "inf", "1e+16", "-1.5"] {
        assert!(guard.is_match(admitted), "{admitted} should be admitted");
    }
    for declined in ["nan", "NaN", " 1.0", "0x10", "1.0x", ""] {
        assert!(!guard.is_match(declined), "{declined} should be declined");
    }
}

#[test]
fn a_page_is_ordered_and_limited_behind_the_filter() {
    let whole = file_page_sql(DATA_FILES, 3, &vec![]);
    assert!(whole.starts_with(DATA_FILES));
    assert_eq!(placeholders_outside_literals(&whole), 8);
    let narrowed = file_page_sql(DATA_FILES, 3, &vec![int_range(7), int_range(8)]);
    assert!(narrowed.starts_with("WITH col_7_stats AS ("));
    assert!(narrowed.contains(",\n    col_8_stats AS ("));
    assert_eq!(placeholders_outside_literals(&narrowed), 8);
    // A listing without its own condition cannot be narrowed.
    assert_eq!(data_files_sql_filtered("SELECT 1", 3, &vec![int_range(7)]), None);
    assert_eq!(file_page_sql("SELECT 1", 3, &vec![]).lines().next(), Some("SELECT 1"));
}

#[test]
fn duckdb_queries_for_inlined_rows() {
    assert_eq!(quote_ident("a\"b"), "\"a\"\"b\"");
    assert_eq!(table_info_sql("t"), "SELECT name FROM pragma_table_info('t')");
    let columns = vec!["id".to_string(), "gone".to_string()];
    let types = vec![DataType::Int64, DataType::Int64];
    let present = vec!["id".to_string()];
    let data = inlined_data_sql("ducklake_inlined_data_1_1", &columns, &types, &present);
    assert!(data.contains("\"id\""), "{data}");
    assert!(!data.contains("\"gone\""), "{data}");
    assert!(inlined_rows_sql("t", &columns, &types, &present).contains("\"id\""));
    assert!(inlined_deletes_sql("ducklake_inlined_delete_1").contains("ducklake_inlined_delete_1"));
    let base = "SELECT df.partial_max FROM df";
    assert_eq!(added_deletes_sql(base, &no_capabilities()), "SELECT NULL FROM df");
}

#[test]
fn files_are_added_since_a_snapshot() {
    let change = |begin_snapshot: i64, partial_max: Option<i64>| DataFileChange {
        begin_snapshot,
        path: format!("{begin_snapshot}.parquet"),
        path_is_relative: true,
        file_size_bytes: 1,
        footer_size: None,
        encryption_key: None,
        row_id_start: None,
        partial_max,
        mapping_id: None,
    };
    let kept = files_added_since(vec![change(1, None), change(1, Some(5)), change(4, None)], 3);
    let paths: Vec<String> = kept.into_iter().map(|file| file.path).collect();
    assert_eq!(paths, vec!["1.parquet".to_string(), "4.parquet".to_string()]);
}

/// A struct is decoded field by field, a map by its entries.
#[test]
fn nested_values_are_decoded_by_their_types() {
    let field = |name: &str, data_type: DataType| Field { name: name.to_string(), data_type };
    let person = DataType::Struct(vec![field("name", DataType::Utf8), field("age", DataType::Int32)]);
    let value = DuckdbValue::Struct(vec![
        ("name".to_string(), DuckdbValue::Text("Ada".to_string())),
        ("age".to_string(), DuckdbValue::Int(36)),
    ]);
    assert_eq!(
        duckdb_owned_scalar(&value, &person, "person"),
        Decoded::Struct(vec![Decoded::Utf8("Ada".to_string()), Decoded::Int32(36)])
    );
    let counts = DataType::MapEntries(Box::new(DataType::Struct(vec![
        field("key", DataType::Utf8),
        field("value", DataType::Int64),
    ])));
    let value = DuckdbValue::MapEntries(vec![(
        DuckdbValue::Text("a".to_string()),
        DuckdbValue::BigInt(1),
    )]);
    assert_eq!(
        duckdb_owned_scalar(&value, &counts, "counts"),
        Decoded::MapEntries(vec![(Decoded::Utf8("a".to_string()), Decoded::Int64(1))])
    );
    assert_eq!(duckdb_owned_scalar(&DuckdbValue::Null, &counts, "counts"), Decoded::Null);
}
