use datafusion_ducklake::metadata::RenderedColumnFilter;
use datafusion_ducklake::metadata_provider_mysql::{
    added_deletes_sql, added_files_sql, file_listing_sql, inlined_data_sql, inlined_deletes_sql,
    is_missing_statistics_table, quote_ident, stats_filter_sql, MySqlStatsDialect,
    SchemaCapabilities, StatsFilterSql,
};
use datafusion_ducklake::types::{DataType, TimeUnit};

/// The filter on one column: unknown where a statistic is missing, `comparison`
/// where none is.
fn column_filter(column_id: i64, stats: &[&str], comparison: &str) -> RenderedColumnFilter {
    let alias = format!("col_{column_id}_stats");
    let unknown: Vec<String> = stats.iter().map(|stat| format!("{alias}.{stat} IS NULL OR ")).collect();
    let mut selected: Vec<String> = stats.iter().map(|stat| stat.to_string()).collect();
    selected.push("value_count".to_string());
    let condition = format!(
        "(({alias}.data_file_id IS NULL OR (({alias}.value_count IS NULL OR \
         {alias}.value_count > 0) AND ({}{comparison})))) IS NOT FALSE",
        unknown.concat()
    );
    RenderedColumnFilter { alias, stats: selected, column_id, condition }
}

/// A lower bound of `column_id` below `constant`, written as `literal`.
fn less_than(
    column_id: i64,
    constant: &str,
    literal: &str,
    data_type: DataType,
) -> Option<StatsFilterSql> {
    let rendered = MySqlStatsDialect
        .try_cast(&format!("col_{column_id}_stats.min_value"), constant, &data_type)
        .map(|bound| vec![column_filter(column_id, &["min_value"], &format!("({bound} < {literal})"))]);
    stats_filter_sql(&rendered, 1)
}

/// Both bounds of `column_id` around `literal`, compared byte by byte.
fn between(column_id: i64, literal: &str) -> StatsFilterSql {
    let dialect = MySqlStatsDialect;
    let comparison = format!(
        "({literal} BETWEEN {} AND {})",
        dialect.collate_binary(&format!("col_{column_id}_stats.min_value")),
        dialect.collate_binary(&format!("col_{column_id}_stats.max_value"))
    );
    let rendered = Some(vec![column_filter(column_id, &["min_value", "max_value"], &comparison)]);
    stats_filter_sql(&rendered, 1).expect("rendered")
}

fn placeholders_outside_literals(sql: &str) -> usize {
    let mut in_literal = false;
    let mut count = 0;
    for byte in sql.bytes() {
        match byte {
            b'\'' => in_literal = !in_literal,
            b'?' if !in_literal => count += 1,
            _ => {}
        }
    }
    count
}

#[test]
fn metadata_provider_mysql_renders_a_two_conjunct_integer_filter() {
    let dialect = MySqlStatsDialect;
    let max = dialect.try_cast("col_7_stats.max_value", "5", &DataType::Int32).expect("a number");
    let min = dialect.try_cast("col_7_stats.min_value", "10", &DataType::Int32).expect("a number");
    let comparison = format!("({max} > 5) AND ({min} < 10)");
    let rendered = Some(vec![column_filter(7, &["min_value", "max_value"], &comparison)]);
    let sql = stats_filter_sql(&rendered, 42).expect("rendered");

    assert!(sql.cte.starts_with("WITH col_7_stats AS (SELECT data_file_id, "));
    assert!(sql.cte.contains("min_value, max_value, value_count"));
    assert!(sql.cte.contains("WHERE column_id = 7 AND table_id = 42)"));
    assert!(sql
        .joins
        .contains("LEFT JOIN col_7_stats ON col_7_stats.data_file_id = data.data_file_id"));
    assert!(sql.conditions.contains(
        "CASE WHEN col_7_stats.max_value REGEXP '^-?[0-9]{1,20}$' \
         THEN CAST(col_7_stats.max_value AS DECIMAL(65, 0)) END > 5"
    ));
    assert!(sql.conditions.trim_end().ends_with(") IS NOT FALSE"));
}

#[test]
fn compares_string_bounds_byte_wise() {
    let sql = between(3, &MySqlStatsDialect.quote_literal("apple"));
    assert!(sql.conditions.contains(
        "'apple' BETWEEN CONVERT(col_3_stats.min_value USING utf8mb4) COLLATE utf8mb4_0900_bin \
         AND CONVERT(col_3_stats.max_value USING utf8mb4) COLLATE utf8mb4_0900_bin"
    ));
}

#[test]
fn metadata_provider_mysql_declines_a_date_constant_outside_the_canonical_encoding() {
    let sql = less_than(1, "2024-01-01", "'2024-01-01'", DataType::Date32).expect("rendered");
    assert!(
        sql.conditions.contains("REGEXP_SUBSTR(")
            && sql.conditions.contains("AS DATE) < '2024-01-01'"),
        "unexpected date condition: {}",
        sql.conditions
    );
    assert!(less_than(1, "+12921-08-18", "'+12921-08-18'", DataType::Date32).is_none());
}

#[test]
fn nanosecond_timestamps_are_compared_as_text() {
    let sql = less_than(
        1,
        "1970-01-01 00:00:00.000000001",
        "'1970-01-01 00:00:00.000000001'",
        DataType::Timestamp(TimeUnit::Nanosecond, None),
    )
    .expect("a nanosecond timestamp pushes down")
    .conditions;

    assert!(sql.contains("'1970-01-01 00:00:00.000000001'"), "{sql}");
    assert!(!sql.contains("CAST("), "nanosecond was cast: {sql}");
    assert!(
        sql.contains("= REGEXP_SUBSTR(") && sql.contains("([.][0-9]*[1-9])?'"),
        "the stat must be matched over its whole value, not to a `$` anchor: {sql}"
    );
    assert!(sql.contains("COLLATE utf8mb4_0900_bin"), "{sql}");
}

#[test]
fn backslash_bearing_constants_render_as_hex_literals() {
    let dialect = MySqlStatsDialect;
    assert_eq!(dialect.quote_literal("apple"), "'apple'");
    assert_eq!(dialect.quote_literal("a'b"), "'a''b'");
    assert_eq!(dialect.quote_literal("a\\"), "_utf8mb4 X'615C'");
    assert_eq!(dialect.quote_literal("a\\'"), "_utf8mb4 X'615C27'");
    // UTF-8 bytes, not code points: `é` is 0xC3 0xA9.
    assert_eq!(dialect.quote_literal("\u{e9}\\"), "_utf8mb4 X'C3A95C'");

    let sql = between(3, &dialect.quote_literal("a\\"));
    assert!(
        sql.conditions.contains(
            "_utf8mb4 X'615C' BETWEEN CONVERT(col_3_stats.min_value USING utf8mb4) \
             COLLATE utf8mb4_0900_bin"
        ),
        "unexpected condition: {}",
        sql.conditions
    );
    assert!(
        !sql.conditions.contains('\\'),
        "a backslash reached the SQL text: {}",
        sql.conditions
    );
}

#[test]
fn the_float_guard_declines_magnitudes_mysql_would_saturate() {
    let bound = MySqlStatsDialect
        .try_cast("col_9_stats.max_value", "1.0", &DataType::Float64)
        .expect("a float");
    let rendered = Some(vec![column_filter(9, &["max_value"], &format!("({bound} > 1.0)"))]);
    let sql = stats_filter_sql(&rendered, 1).expect("rendered");

    let (_, after) =
        sql.conditions.split_once("REGEXP '").expect("the float cast is guarded by a REGEXP");
    let (pattern, _) = after.split_once("' THEN").expect("guarded cast");
    let guard = regex::Regex::new(pattern).expect("a valid pattern");

    for admitted in ["0.0", "-1.5", "1e+16", "1e-20", "1.2345678901234568e+16", &"9".repeat(255)] {
        assert!(guard.is_match(admitted), "{admitted} should be admitted");
    }
    for declined in [
        "1e+400",
        "1e-400",
        &"9".repeat(400),
        "1e+100",
        "inf",
        "-inf",
        "nan",
        "0x10",
        " 1.0",
    ] {
        assert!(!guard.is_match(declined), "{declined} should be declined");
    }
}

/// A constant in another spelling is declined, and so is a type that has no
/// comparison.
#[test]
fn mysql_declines_what_it_cannot_compare() {
    let dialect = MySqlStatsDialect;
    assert_eq!(dialect.try_cast("x", "00", &DataType::Binary), None);
    assert_eq!(dialect.try_cast("x", "2024-01-01 00:00:00", &DataType::Date32), None);
    assert_eq!(
        dialect.try_cast(
            "x",
            "2023-11-14 22:13:20.50",
            &DataType::Timestamp(TimeUnit::Microsecond, None)
        ),
        None
    );
    assert_eq!(stats_filter_sql(&None, 1), None);
    assert_eq!(dialect.boolean_is_not_false("c"), "c IS NULL OR c <> FALSE");
}

/// What is put into the listing brings no placeholder along.
#[test]
fn a_narrowed_mysql_listing_binds_what_the_whole_one_binds() {
    let narrowed = less_than(1, "2024-01-01", "'2024-01-01'", DataType::Date32);
    assert!(narrowed.is_some());
    let whole = file_listing_sql(&None);
    let sql = file_listing_sql(&narrowed);
    assert!(sql.starts_with("WITH col_1_stats AS (SELECT data_file_id, min_value, value_count"));
    assert_eq!(placeholders_outside_literals(&sql), placeholders_outside_literals(&whole));
}

#[test]
fn mysql_catalogs_without_partial_files_read_null() {
    let old = SchemaCapabilities::from_counts(0, 0, 0, 0);
    let new = SchemaCapabilities::from_counts(1, 1, 1, 1);
    assert!(!old.data_file_partial_max && !old.views);
    assert!(new.delete_file_partial_max && new.inlined_data_tables);
    assert!(added_files_sql(&new).contains("data.partial_max"));
    assert!(!added_files_sql(&old).contains("data.partial_max"));
    assert_ne!(added_deletes_sql(&new), added_deletes_sql(&old));
}

#[test]
fn mysql_quotes_names_with_backticks() {
    assert_eq!(quote_ident("a`b"), "`a``b`");
    assert!(is_missing_statistics_table(
        "Table 'lake.ducklake_file_column_stats' doesn't exist"
    ));
    assert!(!is_missing_statistics_table("connection reset"));
    let sql = inlined_data_sql(
        "ducklake_inlined_data_1_1",
        &vec!["id".to_string(), "gone".to_string()],
        &vec!["`id`".to_string(), "`gone`".to_string()],
        &vec!["id".to_string()],
    );
    assert!(sql.contains("`id`"));
    assert!(!sql.contains("`gone`"));
    assert!(inlined_deletes_sql("ducklake_inlined_delete_1").contains("ducklake_inlined_delete_1"));
}
