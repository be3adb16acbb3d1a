use datafusion_ducklake::metadata::RenderedColumnFilter;
use datafusion_ducklake::metadata_provider_postgres::{
    added_files_sql, file_listing_sql, inlined_data_sql, is_missing_statistics_table,
    page_partition_values_sql, page_statistics_sql, quote_ident, select_files_sql,
    stats_filter_sql, PostgresStatsDialect, SchemaCapabilities, StatsFilterSql,
};
use datafusion_ducklake::types::{DataType, TimeUnit};

/// The filter on one column: unknown where a statistic is missing, `comparison`
/// where none is.
fn splice(column_id: i64, table_id: i64, stats: &[&str], comparison: &str) -> StatsFilterSql {
    let alias = format!("col_{column_id}_stats");
    let unknown: Vec<String> = stats.iter().map(|stat| format!("{alias}.{stat} IS NULL OR ")).collect();
    let mut selected: Vec<String> = stats.iter().map(|stat| stat.to_string()).collect();
    selected.push("value_count".to_string());
    let condition = format!(
        "(({alias}.data_file_id IS NULL OR (({alias}.value_count IS NULL OR \
         {alias}.value_count > 0) AND ({}{comparison})))) IS NOT FALSE",
        unknown.concat()
    );
    let filter = RenderedColumnFilter { alias, stats: selected, column_id, condition };
    stats_filter_sql(table_id, &vec![filter]).expect("filter splices")
}

/// `a > 5 AND a < 10` on column 7 of table 3.
fn int_range(soft_input_validation: bool) -> StatsFilterSql {
    let dialect = PostgresStatsDialect { soft_input_validation };
    let max = dialect.try_cast("col_7_stats.max_value", "5", &DataType::Int32).expect("a number");
    let min = dialect.try_cast("col_7_stats.min_value", "10", &DataType::Int32).expect("a number");
    splice(7, 3, &["min_value", "max_value"], &format!("({max} > 5) AND ({min} < 10)"))
}

/// A lower bound of column 2 of table 3 below `constant`.
fn less_than(constant: &str, data_type: DataType, soft_input_validation: bool) -> Option<String> {
    let dialect = PostgresStatsDialect { soft_input_validation };
    let bound = dialect.try_cast("col_2_stats.min_value", constant, &data_type)?;
    Some(splice(2, 3, &["min_value"], &format!("({bound} < '{constant}')")).conditions)
}

fn all_capabilities() -> SchemaCapabilities {
    SchemaCapabilities {
        data_file_partial_max: true,
        delete_file_partial_max: true,
        schema_versions: true,
        data_file_partition_id: true,
        inlined_data_tables: true,
        views: true,
        soft_input_validation: true,
    }
}

fn parameters(sql: &str) -> Vec<char> {
    let chars: Vec<char> = sql.chars().collect();
    (1..chars.len())
        .filter(|&i| chars[i - 1] == '$' && chars[i].is_ascii_digit())
        .map(|i| chars[i])
        .collect()
}

#[test]
fn two_conjunct_integer_filter_renders_the_official_shape() {
    let spliced = int_range(true);
    assert_eq!(
        spliced.with_prefix,
        "WITH col_7_stats AS (
                     SELECT data_file_id, min_value, max_value, value_count
                     FROM ducklake_file_column_stats
                     WHERE column_id = 7 AND table_id = 3
                 )
                 "
    );
    assert_eq!(
        spliced.joins,
        "\n                 LEFT JOIN col_7_stats ON col_7_stats.data_file_id = data.data_file_id"
    );
    assert_eq!(
        spliced.conditions,
        "\n                   AND ((col_7_stats.data_file_id IS NULL OR \
         ((col_7_stats.value_count IS NULL OR col_7_stats.value_count > 0) AND \
         (col_7_stats.min_value IS NULL OR col_7_stats.max_value IS NULL OR \
         (CASE WHEN (col_7_stats.max_value COLLATE \"C\") ~ \
         '^-?[0-9]{1,255}(\\.[0-9]{1,255})?$' AND \
         pg_input_is_valid(col_7_stats.max_value, 'numeric') \
         THEN CAST(col_7_stats.max_value AS numeric) END > 5) AND \
         (CASE WHEN (col_7_stats.min_value COLLATE \"C\") ~ \
         '^-?[0-9]{1,255}(\\.[0-9]{1,255})?$' AND \
         pg_input_is_valid(col_7_stats.min_value, 'numeric') \
         THEN CAST(col_7_stats.min_value AS numeric) END < 10))))) IS NOT FALSE"
    );
}

#[test]
fn integer_filter_falls_back_to_a_pattern_before_postgresql_16() {
    let spliced = int_range(false);
    assert!(
        spliced.conditions.contains(
            "CASE WHEN (col_7_stats.max_value COLLATE \"C\") ~ \
             '^-?[0-9]{1,255}(\\.[0-9]{1,255})?$' \
             THEN CAST(col_7_stats.max_value AS numeric) END > 5"
        ),
        "unexpected condition:\n{}",
        spliced.conditions
    );
    assert!(!spliced.conditions.contains("pg_input_is_valid"));
}

#[test]
fn soft_validation_still_requires_the_stat_shape() {
    for soft in [false, true] {
        let dialect = PostgresStatsDialect { soft_input_validation: soft };
        let min = dialect.try_cast("col_2_stats.min_value", "5.0", &DataType::Float64).expect("a float");
        let max = dialect.try_cast("col_2_stats.max_value", "5.0", &DataType::Float64).expect("a float");
        let sql =
            splice(2, 3, &["min_value", "max_value"], &format!("(5.0 BETWEEN {min} AND {max})")).conditions;
        assert!(
            sql.contains("COLLATE \"C\") ~ '^-?(inf|"),
            "no shape gate (soft_input_validation = {soft}): {sql}"
        );
        assert!(!sql.contains("nan"), "nan admitted: {sql}");
    }
}

#[test]
fn temporal_is_compared_as_text_on_every_server_version() {
    for soft in [false, true] {
        let date = less_than("2024-01-01", DataType::Date32, soft).expect("a date pushes down");
        assert!(
            date.contains("(col_2_stats.min_value COLLATE \"C\") ~ '^[0-9]{4}-[0-9]{2}-[0-9]{2}$'"),
            "date not compared as text (soft = {soft}): {date}"
        );
        assert!(!date.contains("CAST("), "date was cast: {date}");
        assert!(!date.contains("pg_input_is_valid"), "date parsed: {date}");

        let nanos = less_than(
            "2020-01-01 00:00:00.1234567",
            DataType::Timestamp(TimeUnit::Nanosecond, None),
            soft,
        )
        .expect("a nanosecond timestamp pushes down");
        assert!(nanos.contains("'2020-01-01 00:00:00.1234567'"), "{nanos}");
        assert!(!nanos.contains("CAST("), "nanosecond was cast: {nanos}");

        let zoned = less_than(
            "2020-01-01 00:00:00+00",
            DataType::Timestamp(TimeUnit::Microsecond, Some("+00:00".to_string())),
            soft,
        )
        .expect("a zoned timestamp pushes down");
        assert!(zoned.contains("[+]00$"), "{zoned}");
    }
}

#[test]
fn temporal_declines_encodings_that_do_not_order_as_text() {
    assert!(less_than("+12921-08-18", DataType::Date32, true).is_none());
    assert!(less_than("-0221-09-04", DataType::Date32, true).is_none());

    // Year zero orders fine as text.
    assert!(less_than("0000-01-01", DataType::Date32, true).is_some());

    let sql = less_than(
        "2020-01-01 00:00:00.5",
        DataType::Timestamp(TimeUnit::Microsecond, None),
        true,
    )
    .expect("a canonical timestamp pushes down");
    assert!(sql.contains("([.][0-9]*[1-9])?$"), "{sql}");
}

#[test]
fn string_bounds_are_compared_under_the_c_collation() {
    let dialect = PostgresStatsDialect { soft_input_validation: true };
    let comparison = format!(
        "('abc' BETWEEN {} AND {})",
        dialect.collate_binary("col_1_stats.min_value"),
        dialect.collate_binary("col_1_stats.max_value")
    );
    let spliced = splice(1, 3, &["min_value", "max_value"], &comparison);
    assert!(
        spliced.conditions.contains(
            "'abc' BETWEEN (col_1_stats.min_value COLLATE \"C\") \
             AND (col_1_stats.max_value COLLATE \"C\")"
        ),
        "unexpected condition:\n{}",
        spliced.conditions
    );
    assert!(!spliced.conditions.contains("CAST"));
}

/// A narrowed listing refers to the same numbered parameters as the whole one.
#[test]
fn a_narrowed_postgres_listing_binds_what_the_whole_one_binds() {
    let capabilities = all_capabilities();
    let whole = file_listing_sql(&capabilities, &None);
    let narrowed = file_listing_sql(&capabilities, &Some(int_range(true)));
    assert!(!parameters(&whole).is_empty());
    assert_eq!(parameters(&narrowed), parameters(&whole));
    assert!(narrowed.starts_with("WITH col_7_stats AS ("));
}

#[test]
fn postgres_pages_are_scoped_by_id_where_they_are_filtered() {
    assert!(page_statistics_sql(true).contains("ANY("));
    assert!(!page_statistics_sql(false).contains("ANY("));
    assert!(page_partition_values_sql(true).contains("ANY("));
    assert!(!page_partition_values_sql(false).contains("ANY("));
}

#[test]
fn postgres_catalogs_without_optional_columns_read_null() {
    let none = SchemaCapabilities {
        data_file_partial_max: false,
        delete_file_partial_max: false,
        schema_versions: false,
        data_file_partition_id: false,
        inlined_data_tables: false,
        views: false,
        soft_input_validation: false,
    };
    assert!(select_files_sql(&all_capabilities()).contains("data.partition_id"));
    assert!(!select_files_sql(&none).contains("data.partition_id"));
    assert!(added_files_sql(&all_capabilities()).contains("data.partial_max"));
    assert!(!added_files_sql(&none).contains("data.partial_max"));
}

#[test]
fn postgres_quotes_names_with_double_quotes() {
    assert_eq!(quote_ident("a\"b"), "\"a\"\"b\"");
    assert!(is_missing_statistics_table(
        "relation \"ducklake_file_column_stats\" does not exist"
    ));
    assert!(!is_missing_statistics_table("connection reset"));
    assert_eq!(stats_filter_sql(3, &vec![]), None);
    let sql = inlined_data_sql(
        "ducklake_inlined_data_1_1",
        &vec!["id".to_string(), "gone".to_string()],
        &vec!["\"id\"".to_string(), "\"gone\"".to_string()],
        &vec!["id".to_string()],
        None,
    );
    assert!(sql.contains("\"id\""));
    assert!(!sql.contains("\"gone\""));
}
