use datafusion_ducklake::file_page::{begin_page, FilePage};
use datafusion_ducklake::metadata::RenderedColumnFilter;
use datafusion_ducklake::metadata_provider_sqlite::{
    file_listing_sql, is_missing_statistics_table, quote_ident, stats_filter_sql, table_info_sql,
    SchemaCapabilities, SqliteStatsDialect, StatsFilterSql,
};
use datafusion_ducklake::stats_encode::{
    is_canonical_date, is_canonical_timestamp, is_canonical_timestamptz,
};
use datafusion_ducklake::types::{DataType, TimeUnit};
use sqlx::{AssertSqlSafe, Connection, Row, SqliteConnection};

/// The filter on one column: unknown where a statistic is missing, `comparison`
/// where none is.
fn column_filter(
    column_id: i64,
    stats: &[&str],
    gate: Option<&str>,
    comparison: &str,
) -> RenderedColumnFilter {
    let alias = format!("col_{column_id}_stats");
    let unknown: Vec<String> = stats.iter().map(|stat| format!("{alias}.{stat} IS NULL OR ")).collect();
    let mut selected: Vec<String> = stats.iter().map(|stat| stat.to_string()).collect();
    selected.push("value_count".to_string());
    let mut known = format!("({}{comparison})", unknown.concat());
    if let Some(flag) = gate {
        selected.push(flag.to_string());
        let open = SqliteStatsDialect.boolean_is_not_false(&format!("{alias}.{flag}"));
        known = format!("(({open}) OR {known})");
    }
    let condition = format!(
        "(({alias}.data_file_id IS NULL OR (({alias}.value_count IS NULL OR \
         {alias}.value_count > 0) AND {known}))) IS NOT FALSE"
    );
    RenderedColumnFilter { alias, stats: selected, column_id, condition }
}

/// A lower bound of column 1 below `constant`.
fn less_than(constant: &str, data_type: DataType) -> Option<StatsFilterSql> {
    let rendered = SqliteStatsDialect
        .try_cast("col_1_stats.min_value", constant, &data_type)
        .map(|bound| {
            vec![column_filter(1, &["min_value"], None, &format!("({bound} < '{constant}')"))]
        });
    stats_filter_sql(&rendered, 1)
}

/// `a > 5 AND a < 10` on column 7.
fn int_range(table_id: i64) -> StatsFilterSql {
    let dialect = SqliteStatsDialect;
    let max = dialect.try_cast("col_7_stats.max_value", "5", &DataType::Int32).expect("a number");
    let min = dialect.try_cast("col_7_stats.min_value", "10", &DataType::Int32).expect("a number");
    let comparison = format!("({max} > 5) AND ({min} < 10)");
    let rendered = Some(vec![column_filter(7, &["min_value", "max_value"], None, &comparison)]);
    stats_filter_sql(&rendered, table_id).expect("rendered")
}

/// Capabilities of a catalog that has no optional part.
fn oldest() -> SchemaCapabilities {
    SchemaCapabilities {
        data_file_partial_max: false,
        delete_file_partial_max: false,
        data_file_partition_id: false,
        schema_versions: false,
        inlined_data_tables: false,
        views: false,
    }
}

async fn reads(connection: &mut SqliteConnection, value: &str, constant: &str, data_type: DataType) -> bool {
    let expr = SqliteStatsDialect.try_cast("v", constant, &data_type).expect("a comparison");
    let sql = format!("SELECT ({expr}) IS NOT NULL FROM (SELECT ? AS v)");
    sqlx::query(AssertSqlSafe(sql))
        .bind(value.to_string())
        .fetch_one(connection)
        .await
        .expect("SQLite runs the guard")
        .get::<bool, _>(0)
}

#[test]
fn metadata_provider_sqlite_renders_a_two_conjunct_integer_filter() {
    let sql = int_range(42);
    assert!(sql.cte.starts_with("WITH col_7_stats AS (SELECT data_file_id, "));
    assert!(sql.cte.contains("min_value, max_value, value_count"));
    assert!(sql.cte.contains("WHERE column_id = 7 AND table_id = 42)"));
    assert!(sql
        .joins
        .contains("LEFT JOIN col_7_stats ON col_7_stats.data_file_id = data.data_file_id"));
    assert!(sql.conditions.contains(
        "CASE WHEN col_7_stats.max_value = CAST(CAST(col_7_stats.max_value AS INTEGER) AS TEXT) \
         THEN CAST(col_7_stats.max_value AS INTEGER) END > 5"
    ));
    assert!(sql.conditions.trim_end().ends_with(") IS NOT FALSE"));
}

#[test]
fn renders_a_float_filter_behind_the_nan_gate() {
    let bound = SqliteStatsDialect
        .try_cast("col_2_stats.min_value", "5.0", &DataType::Float64)
        .expect("a float");
    let rendered = Some(vec![column_filter(
        2,
        &["min_value"],
        Some("contains_nan"),
        &format!("({bound} < 5.0)"),
    )]);
    let sql = stats_filter_sql(&rendered, 1).expect("rendered");
    assert!(sql.cte.contains("min_value, value_count, contains_nan"));
    assert!(sql
        .conditions
        .contains("(col_2_stats.contains_nan IS NULL OR col_2_stats.contains_nan <> 0)"));
    assert!(sql.conditions.contains(
        "rtrim(ltrim(ltrim(col_2_stats.min_value, '-'), '0123456789'), '0123456789') = '.'"
    ));
    assert!(sql.conditions.contains("THEN CAST(col_2_stats.min_value AS REAL) END < 5.0"));
}

#[test]
fn declines_decimal_comparisons() {
    assert!(less_than("12.34", DataType::Decimal128(10, 2)).is_none());
}

#[test]
fn renders_a_date_filter_as_a_guarded_text_comparison() {
    let sql = less_than("2024-01-01", DataType::Date32).expect("rendered");
    assert!(sql.conditions.contains(
        "CASE WHEN col_1_stats.min_value GLOB '[0-9][0-9][0-9][0-9]-[0-9][0-9]-[0-9][0-9]' \
         THEN col_1_stats.min_value END COLLATE BINARY < '2024-01-01'"
    ));
}

#[test]
fn metadata_provider_sqlite_declines_a_date_constant_outside_the_canonical_encoding() {
    for constant in ["+12921-08-18", "-0221-09-04"] {
        assert!(
            less_than(constant, DataType::Date32).is_none(),
            "date {constant} must not render"
        );
    }
}

#[test]
fn renders_timestamp_filters_with_and_without_a_zone() {
    let sql = less_than(
        "2023-11-14 22:13:20.5",
        DataType::Timestamp(TimeUnit::Microsecond, None),
    )
    .expect("rendered");
    assert!(sql.conditions.contains("< '2023-11-14 22:13:20.5'"));
    assert!(sql.conditions.contains("OR (substr(col_1_stats.min_value, 20) GLOB '.[0-9]*'"));

    let sql = less_than(
        "2023-11-14 22:13:20+00",
        DataType::Timestamp(TimeUnit::Microsecond, Some("UTC".to_string())),
    )
    .expect("rendered");
    assert!(sql.conditions.contains("< '2023-11-14 22:13:20+00'"));
    assert!(sql.conditions.contains(
        "col_1_stats.min_value GLOB '*+00' AND \
         substr(col_1_stats.min_value, 1, length(col_1_stats.min_value) - 3) GLOB"
    ));
}

#[test]
fn the_canonical_checks_accept_what_the_encoder_writes() {
    assert!(is_canonical_date("2024-01-01"));
    assert!(!is_canonical_date("+12921-08-18"));
    assert!(!is_canonical_date("-0221-09-04"));
    assert!(!is_canonical_date("2024-01-01 00:00:00"));

    assert!(is_canonical_timestamp("2023-11-14 22:13:20"));
    assert!(is_canonical_timestamp("2023-11-14 22:13:20.5"));
    assert!(is_canonical_timestamp("2023-11-14 22:13:20.123456"));
    // Equal to `.5` but ordered above it as text, so never admitted.
    assert!(!is_canonical_timestamp("2023-11-14 22:13:20.50"));
    assert!(!is_canonical_timestamp("2023-11-14 22:13:20."));
    assert!(!is_canonical_timestamp("2023-11-14 22:13:20+00"));
    assert!(!is_canonical_timestamp("2024-01-01"));

    assert!(is_canonical_timestamptz("2023-11-14 22:13:20+00"));
    assert!(is_canonical_timestamptz("2023-11-14 22:13:20.5+00"));
    // Another offset orders wrongly against `+00`, so it is not canonical.
    assert!(!is_canonical_timestamptz("2023-11-14 22:13:20+01"));
    assert!(!is_canonical_timestamptz("2023-11-14 22:13:20"));
}

/// A catalog in memory, as SQLite holds it.
async fn catalog(setup: &'static str) -> SqliteConnection {
    let mut connection = SqliteConnection::connect("sqlite::memory:").await.expect("a catalog");
    sqlx::raw_sql(setup).execute(&mut connection).await.expect("a fixture");
    connection
}

const LISTED_TABLES: &str = "
    CREATE TABLE ducklake_data_file (
        data_file_id BIGINT, table_id BIGINT, begin_snapshot BIGINT,
        end_snapshot BIGINT, path VARCHAR, path_is_relative BOOLEAN,
        file_size_bytes BIGINT, footer_size BIGINT, encryption_key VARCHAR,
        row_id_start BIGINT, record_count BIGINT, mapping_id BIGINT);
    CREATE TABLE ducklake_delete_file (
        delete_file_id BIGINT, data_file_id BIGINT, table_id BIGINT,
        begin_snapshot BIGINT, end_snapshot BIGINT, path VARCHAR,
        path_is_relative BOOLEAN, file_size_bytes BIGINT, footer_size BIGINT,
        encryption_key VARCHAR, delete_count BIGINT);
    CREATE TABLE ducklake_file_column_stats (
        data_file_id BIGINT, table_id BIGINT, column_id BIGINT,
        column_size_bytes BIGINT, value_count BIGINT, null_count BIGINT,
        min_value VARCHAR, max_value VARCHAR, contains_nan BOOLEAN);
    INSERT INTO ducklake_data_file VALUES
        (1, 3, 0, NULL, 'low.parquet', true, 10, 1, NULL, 0, 100, NULL),
        (2, 3, 0, NULL, 'high.parquet', true, 10, 1, NULL, 100, 100, NULL),
        (3, 3, 0, NULL, 'unknown.parquet', true, 10, 1, NULL, 200, 100, NULL),
        (4, 3, 0, NULL, 'malformed.parquet', true, 10, 1, NULL, 300, 100, NULL);
    INSERT INTO ducklake_file_column_stats VALUES
        (1, 3, 7, 8, 100, 0, '6', '9', NULL),
        (2, 3, 7, 8, 100, 0, '100', '900', NULL),
        (4, 3, 7, 8, 100, 0, 'not a number', '9', NULL);";

/// SQLite binds and runs the narrowed listing. The file whose range cannot match
/// is gone; those without a bound that can be read stay.
#[test]
fn filtered_listing_prunes_in_sqlite() {
    let runtime = tokio::runtime::Builder::new_current_thread().build().expect("a runtime");
    runtime.block_on(async {
        let mut connection = catalog(LISTED_TABLES).await;
        let sql = file_listing_sql(&oldest(), &Some(int_range(3)));
        let rows = sqlx::query(AssertSqlSafe(sql))
            .bind(3i64)
            .bind(0i64)
            .bind(0i64)
            .bind(3i64)
            .bind(0i64)
            .bind(0i64)
            .bind(i64::MIN)
            .bind(10i64)
            .fetch_all(&mut connection)
            .await
            .expect("SQLite runs the narrowed listing");
        let ids: Vec<i64> = rows.iter().map(|row| row.get::<i64, _>(0)).collect();
        assert_eq!(ids, vec![1, 3, 4]);
    });
}

/// Pages that are read one behind the other hold the files of one large page, narrowed
/// or not, and an empty page comes only at the end.
#[test]
fn consecutive_pages_are_the_whole_listing() {
    let runtime = tokio::runtime::Builder::new_current_thread().build().expect("a runtime");
    runtime.block_on(async {
        let mut connection = catalog(LISTED_TABLES).await;
        for (filter, whole) in [(None, vec![1, 2, 3, 4]), (Some(int_range(3)), vec![1, 3, 4])] {
            let sql = file_listing_sql(&oldest(), &filter);
            for limit in 1..5usize {
                let mut read: Vec<i64> = Vec::new();
                loop {
                    let page = begin_page(read.last().copied(), limit, filter.is_some());
                    let Ok(FilePage::Listing { after, limit, .. }) = page else {
                        panic!("a page starts with its listing");
                    };
                    let rows = sqlx::query(AssertSqlSafe(sql.clone()))
                        .bind(3i64)
                        .bind(0i64)
                        .bind(0i64)
                        .bind(3i64)
                        .bind(0i64)
                        .bind(0i64)
                        .bind(after)
                        .bind(limit)
                        .fetch_all(&mut connection)
                        .await
                        .expect("a listing");
                    if rows.is_empty() {
                        break;
                    }
                    read.extend(rows.iter().map(|row| row.get::<i64, _>(0)));
                }
                assert_eq!(read, whole, "{limit} at a time");
            }
        }
    });
}

/// A catalog without the statistics table refuses the narrowed listing in words
/// that are recognised, and still gives the whole one.
#[test]
fn a_sqlite_catalog_without_statistics_is_recognised() {
    let runtime = tokio::runtime::Builder::new_current_thread().build().expect("a runtime");
    runtime.block_on(async {
        let mut connection = catalog(LISTED_TABLES).await;
        sqlx::raw_sql("DROP TABLE ducklake_file_column_stats")
            .execute(&mut connection)
            .await
            .expect("a legacy catalog");
        let error = sqlx::query(AssertSqlSafe(file_listing_sql(&oldest(), &Some(int_range(3)))))
            .fetch_all(&mut connection)
            .await
            .expect_err("there is no such table");
        assert!(is_missing_statistics_table(&error.to_string()), "{error}");
        let whole = sqlx::query(AssertSqlSafe(file_listing_sql(&oldest(), &None)))
            .bind(3i64)
            .bind(0i64)
            .bind(0i64)
            .bind(3i64)
            .bind(0i64)
            .bind(0i64)
            .bind(i64::MIN)
            .bind(10i64)
            .fetch_all(&mut connection)
            .await
            .expect("the whole listing");
        assert_eq!(whole.len(), 4);
    });
}

/// The test on the text of a bound admits what the encoder writes, and nothing
/// that SQLite would only read the start of.
#[test]
fn sqlite_reads_a_bound_only_in_its_canonical_spelling() {
    let runtime = tokio::runtime::Builder::new_current_thread().build().expect("a runtime");
    runtime.block_on(async {
        let mut connection = catalog(LISTED_TABLES).await;
        let c = &mut connection;
        assert!(reads(c, "-17", "5", DataType::Int64).await);
        assert!(!reads(c, "17x", "5", DataType::Int64).await);
        assert!(!reads(c, " 17", "5", DataType::Int64).await);
        assert!(reads(c, "1.5", "5.0", DataType::Float64).await);
        assert!(reads(c, "1e+16", "5.0", DataType::Float64).await);
        assert!(!reads(c, "nan", "5.0", DataType::Float64).await);
        assert!(!reads(c, "1.5.2", "5.0", DataType::Float64).await);
        assert!(reads(c, "2024-01-01", "2024-01-01", DataType::Date32).await);
        assert!(!reads(c, "+12921-08-18", "2024-01-01", DataType::Date32).await);
        let naive = || DataType::Timestamp(TimeUnit::Microsecond, None);
        assert!(reads(c, "2023-11-14 22:13:20.5", "2023-11-14 22:13:20", naive()).await);
        assert!(!reads(c, "2023-11-14 22:13:20.50", "2023-11-14 22:13:20", naive()).await);
    });
}

#[test]
fn sqlite_quotes_names_with_double_quotes() {
    assert_eq!(quote_ident("a\"b"), "\"a\"\"b\"");
    assert!(is_missing_statistics_table("no such table: ducklake_file_column_stats"));
    assert!(!is_missing_statistics_table("database is locked"));
    assert_eq!(stats_filter_sql(&None, 1), None);
    assert!(table_info_sql("t").contains("pragma_table_info"));
}
