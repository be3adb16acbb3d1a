//! A catalog kept in PostgreSQL: its SQL dialect and its queries.

use vstd::prelude::*;
use crate::capabilities::Capabilities;
use crate::inlined::{project_columns, projected_text};
use crate::metadata::RenderedColumnFilter;
use crate::order::opt_view;
use crate::parameters::{
    is_free, lemma_free_joined, lemma_free_number, lemma_free_stats, lemma_free_sum,
    lemma_free_text, lemma_references_sum, references, refers_to_no_parameter,
};
use crate::scan::{ascii_lowered, contains_text, is_digit, lower_ascii, text_contains};
use crate::stats_encode::{is_canonical_date, is_canonical_timestamp, is_canonical_timestamptz,
    is_date_text, is_timestamp_text, is_timestamptz_text};
use crate::text::{int_text, join, joined, push_i64, push_u64, quote_with, quoted, same_text,
    views};
use crate::types::{opt_str, DataType};

verus! {

/// Whether a query failed because the catalog does not have the table it reads.
pub fn is_missing_statistics_table(message: &str) -> (missing: bool)
    ensures
        missing == (contains_text(ascii_lowered(message@), "does not exist"@) || contains_text(
            ascii_lowered(message@),
            "undefined table"@,
        )),
{
    let lowered = lower_ascii(message);
    text_contains(lowered.as_str(), "does not exist") || text_contains(
        lowered.as_str(),
        "undefined table",
    )
}

/// `name` as an identifier, whatever it holds.
pub fn quote_ident(name: &str) -> (out: String)
    ensures
        out@ == quoted(name@, '"'),
{
    quote_with(name, '"')
}

// ---------------------------------------------------------------------------
// Comparing statistics with a constant
// ---------------------------------------------------------------------------

/// PostgreSQL's spelling of the comparisons with statistics.
///
/// A cast that fails aborts the whole query, so a statistic is cast only where
/// its text has a shape that the type reads; newer servers are asked besides
/// whether the value is in range.
pub struct PostgresStatsDialect {
    /// The server can say whether a text is valid input for a type.
    pub soft_input_validation: bool,
}

/// The type that statistics of a type are compared in.
pub open spec fn cast_type(data_type: DataType) -> Option<Seq<char>> {
    match data_type {
        DataType::Boolean => Some("boolean"@),
        DataType::Decimal128(_, _) => Some("numeric"@),
        DataType::Float16 | DataType::Float32 | DataType::Float64 => Some("double precision"@),
        _ => if data_type.is_integer_type() {
            Some("numeric"@)
        } else {
            None
        },
    }
}

/// The PostgreSQL type a statistic is cast to for comparison with a constant of
/// `data_type`. All integers and fixed-point numbers are compared as `numeric`,
/// which holds every one of them exactly.
pub fn postgres_cast_type(data_type: &DataType) -> (name: Option<&'static str>)
    ensures
        opt_str(name) == cast_type(*data_type),
{
    match data_type {
        DataType::Boolean => Some("boolean"),
        DataType::Decimal128(_, _) => Some("numeric"),
        DataType::Float16 | DataType::Float32 | DataType::Float64 => Some("double precision"),
        _ => if data_type.is_integer() {
            Some("numeric")
        } else {
            None
        },
    }
}

/// The texts that a cast to the type is sure to read.
pub open spec fn castable_pattern(target: Seq<char>) -> Option<Seq<char>> {
    if target == "boolean"@ {
        Some("^(true|false)$"@)
    } else if target == "numeric"@ {
        Some("^-?[0-9]{1,255}(\\.[0-9]{1,255})?$"@)
    } else if target == "double precision"@ {
        Some(
            "^-?(inf|[0-9]{1,255}(\\.[0-9]{1,255})?|[0-9](\\.[0-9]{1,255})?e[-+][0-9]{1,2})$"@,
        )
    } else {
        None
    }
}

/// A pattern that admits only texts that a cast to `target` is sure to read. The
/// runs of digits are bounded, so that no value can be out of range.
pub fn postgres_castable_pattern(target: &str) -> (pattern: Option<&'static str>)
    ensures
        opt_str(pattern) == castable_pattern(target@),
{
    if same_text(target, "boolean") {
        Some("^(true|false)$")
    } else if same_text(target, "numeric") {
        Some("^-?[0-9]{1,255}(\\.[0-9]{1,255})?$")
    } else if same_text(target, "double precision") {
        Some("^-?(inf|[0-9]{1,255}(\\.[0-9]{1,255})?|[0-9](\\.[0-9]{1,255})?e[-+][0-9]{1,2})$")
    } else {
        None
    }
}

/// The spelling of a date.
pub const DATE_PATTERN: &'static str = "^[0-9]{4}-[0-9]{2}-[0-9]{2}$";

/// The spelling of a timestamp, with a fraction that does not end in `0`.
pub const TIMESTAMP_PATTERN: &'static str =
    "^[0-9]{4}-[0-9]{2}-[0-9]{2} [0-9]{2}:[0-9]{2}:[0-9]{2}([.][0-9]*[1-9])?$";

/// The spelling of a timestamp in UTC.
pub const TIMESTAMPTZ_PATTERN: &'static str =
    "^[0-9]{4}-[0-9]{2}-[0-9]{2} [0-9]{2}:[0-9]{2}:[0-9]{2}([.][0-9]*[1-9])?[+]00$";

/// The spelling of a temporal statistic that can be compared as text with the
/// constant.
pub open spec fn temporal_pattern(data_type: DataType, constant: Seq<char>) -> Option<Seq<char>> {
    match data_type {
        DataType::Date32 | DataType::Date64 => if is_date_text(constant) {
            Some(DATE_PATTERN@)
        } else {
            None
        },
        DataType::Timestamp(_, None) => if is_timestamp_text(constant) {
            Some(TIMESTAMP_PATTERN@)
        } else {
            None
        },
        DataType::Timestamp(_, Some(_)) => if is_timestamptz_text(constant) {
            Some(TIMESTAMPTZ_PATTERN@)
        } else {
            None
        },
        _ => None,
    }
}

/// The pattern that admits a temporal statistic to be compared as text, or
/// `None` where the type is not temporal or the constant not canonical.
pub fn postgres_canonical_temporal_pattern(data_type: &DataType, constant: &str) -> (pattern:
    Option<&'static str>)
    ensures
        opt_str(pattern) == temporal_pattern(*data_type, constant@),
{
    match data_type {
        DataType::Date32 | DataType::Date64 => if is_canonical_date(constant) {
            Some(DATE_PATTERN)
        } else {
            None
        },
        DataType::Timestamp(_, None) => if is_canonical_timestamp(constant) {
            Some(TIMESTAMP_PATTERN)
        } else {
            None
        },
        DataType::Timestamp(_, Some(_)) => if is_canonical_timestamptz(constant) {
            Some(TIMESTAMPTZ_PATTERN)
        } else {
            None
        },
        _ => None,
    }
}

/// `expr` for a comparison byte by byte.
pub open spec fn binary_text(expr: Seq<char>) -> Seq<char> {
    "("@ + expr + " COLLATE \"C\")"@
}

/// The condition under which a statistic is cast: its shape, and on newer
/// servers its range.
pub open spec fn cast_guard(
    expr: Seq<char>,
    pattern: Seq<char>,
    target: Seq<char>,
    soft_input_validation: bool,
) -> Seq<char> {
    let shape = "("@ + expr + " COLLATE \"C\") ~ '"@ + pattern + "'"@;
    if soft_input_validation {
        shape + " AND pg_input_is_valid("@ + expr + ", '"@ + target + "')"@
    } else {
        shape
    }
}

/// The value of a statistic for comparison with a constant: temporal ones as
/// text, the others cast.
pub open spec fn postgres_cast_text(
    expr: Seq<char>,
    constant: Seq<char>,
    data_type: DataType,
    soft_input_validation: bool,
) -> Option<Seq<char>> {
    match temporal_pattern(data_type, constant) {
        Some(pattern) => Some(
            "CASE WHEN "@ + binary_text(expr) + " ~ '"@ + pattern + "' THEN "@
        + binary_text(expr) + " END"@,
        ),
        None => match cast_type(data_type) {
            Some(target) => match castable_pattern(target) {
                Some(pattern) => Some(
                    "CASE WHEN "@ + cast_guard(expr, pattern, target, soft_input_validation)
        + " THEN CAST("@ + expr + " AS "@ + target + ") END"@,
                ),
                None => None,
            },
            None => None,
        },
    }
}

impl PostgresStatsDialect {
    /// The statistic `expr` as a value to compare `constant` with, or `None`
    /// where the comparison is not to be made.
    pub fn try_cast(&self, expr: &str, constant: &str, data_type: &DataType) -> (out: Option<
        String,
    >)
        ensures
            opt_view(out) == postgres_cast_text(
                expr@,
                constant@,
                *data_type,
                self.soft_input_validation,
            ),
    {
        match postgres_canonical_temporal_pattern(data_type, constant) {
            Some(pattern) => {
                let text = self.collate_binary(expr);
                Some({
                    let mut out = "CASE WHEN ".to_string();
                    out.append(text.as_str());
                    out.append(" ~ '");
                    out.append(pattern);
                    out.append("' THEN ");
                    out.append(text.as_str());
                    out.append(" END");
                    out
                })
            },
            None => match postgres_cast_type(data_type) {
                Some(target) => match postgres_castable_pattern(target) {
                    Some(pattern) => {
                        let guard = self.cast_guard_of(expr, pattern, target);
                        Some({
                            let mut out = "CASE WHEN ".to_string();
                            out.append(guard.as_str());
                            out.append(" THEN CAST(");
                            out.append(expr);
                            out.append(" AS ");
                            out.append(target);
                            out.append(") END");
                            out
                        })
                    },
                    None => None,
                },
                None => None,
            },
        }
    }

    fn cast_guard_of(&self, expr: &str, pattern: &str, target: &str) -> (out: String)
        ensures
            out@ == cast_guard(expr@, pattern@, target@, self.soft_input_validation),
    {
        let shape = {
            let mut out = "(".to_string();
            out.append(expr);
            out.append(" COLLATE \"C\") ~ '");
            out.append(pattern);
            out.append("'");
            out
        };
        if !self.soft_input_validation {
            return shape;
        }
        let mut out = shape;
        out.append(" AND pg_input_is_valid(");
        out.append(expr);
        out.append(", '");
        out.append(target);
        out.append("')");
        out
    }

    /// `expr` for a comparison byte by byte, whatever the database's collation.
    pub fn collate_binary(&self, expr: &str) -> (out: String)
        ensures
            out@ == binary_text(expr@),
    {
        let mut out = "(".to_string();
        out.append(expr);
        out.append(" COLLATE \"C\")");
        out
    }

    /// The condition that `expr` is unknown or not false.
    pub fn boolean_is_not_false(&self, expr: &str) -> (out: String)
        ensures
            out@ == expr@ + " IS NULL OR "@ + expr@ + " <> false"@,
    {
        let mut out = expr.to_string();
        out.append(" IS NULL OR ");
        out.append(expr);
        out.append(" <> false");
        out
    }
}

/// Every statistic that is cast has passed the test of its shape first; what the
/// server says of it only narrows that further.
pub proof fn lemma_cast_requires_shape(
    expr: Seq<char>,
    pattern: Seq<char>,
    target: Seq<char>,
    soft_input_validation: bool,
)
    ensures
        ("("@ + expr + " COLLATE \"C\") ~ '"@ + pattern + "'"@).is_prefix_of(
            cast_guard(expr, pattern, target, soft_input_validation),
        ),
{
    let shape = "("@ + expr + " COLLATE \"C\") ~ '"@ + pattern + "'"@;
    let guard = cast_guard(expr, pattern, target, soft_input_validation);
    assert(shape =~= guard.take(shape.len() as int));
}

// ---------------------------------------------------------------------------
// What a filter on statistics adds to the listing
// ---------------------------------------------------------------------------

/// The pieces of SQL that narrow the listing of files.
#[derive(Debug, Clone, PartialEq, Eq)]
pub struct StatsFilterSql {
    /// The `WITH` clause.
    pub with_prefix: String,
    /// One join for each filtered column.
    pub joins: String,
    /// The conditions, each behind an `AND`.
    pub conditions: String,
}

/// The common table expression that selects the statistics of one column.
pub open spec fn cte_text(filter: RenderedColumnFilter, table_id: i64) -> Seq<char> {
    filter.alias@ + " AS (
                     SELECT data_file_id, "@
        + joined(views(filter.stats@), ", "@) + "
                     FROM ducklake_file_column_stats
                     WHERE column_id = "@
        + int_text(filter.column_id as int) + " AND table_id = "@
        + int_text(table_id as int) + "
                 )"@
}

/// The join that brings the statistics of one column in.
pub open spec fn join_text(filter: RenderedColumnFilter) -> Seq<char> {
    "
                 LEFT JOIN "@
        + filter.alias@ + " ON "@ + filter.alias@ + ".data_file_id = data.data_file_id"@
}

/// The condition on the statistics of one column.
pub open spec fn condition_text(filter: RenderedColumnFilter) -> Seq<char> {
    "
                   AND "@
        + filter.condition@
}

fn cte_of(filter: &RenderedColumnFilter, table_id: i64) -> (out: String)
    ensures
        out@ == cte_text(*filter, table_id),
{
    let stats = join(&filter.stats, ", ");
    let mut out = filter.alias.clone();
    out.append(" AS (
                     SELECT data_file_id, ");
    out.append(stats.as_str());
    out.append("
                     FROM ducklake_file_column_stats
                     WHERE column_id = ");
    push_i64(&mut out, filter.column_id);
    out.append(" AND table_id = ");
    push_i64(&mut out, table_id);
    out.append("
                 )");
    out
}

fn join_of(filter: &RenderedColumnFilter) -> (out: String)
    ensures
        out@ == join_text(*filter),
{
    let mut out = "
                 LEFT JOIN ".to_string();
    out.append(filter.alias.as_str());
    out.append(" ON ");
    out.append(filter.alias.as_str());
    out.append(".data_file_id = data.data_file_id");
    out
}

fn condition_of(filter: &RenderedColumnFilter) -> (out: String)
    ensures
        out@ == condition_text(*filter),
{
    let mut out = "
                   AND ".to_string();
    out.append(filter.condition.as_str());
    out
}

/// Whether `sql` narrows the listing by `filters`.
pub open spec fn narrows(
    sql: StatsFilterSql,
    filters: Seq<RenderedColumnFilter>,
    table_id: i64,
) -> bool {
    &&& sql.with_prefix@ == "WITH "@ + joined(
        filters.map_values(|filter: RenderedColumnFilter| cte_text(filter, table_id)),
        ",\n                 "@,
    ) + "\n                 "@
    &&& sql.joins@ == joined(
        filters.map_values(|filter: RenderedColumnFilter| join_text(filter)),
        Seq::empty(),
    )
    &&& sql.conditions@ == joined(
        filters.map_values(|filter: RenderedColumnFilter| condition_text(filter)),
        Seq::empty(),
    )
}

/// What the statistics of `filters` add to the listing of a table's files, or
/// `None` when there are none. No parameter is added: all values stand in the
/// text.
pub fn stats_filter_sql(table_id: i64, filters: &Vec<RenderedColumnFilter>) -> (out: Option<
    StatsFilterSql,
>)
    ensures
        match out {
            Some(sql) => filters@.len() > 0 && narrows(sql, filters@, table_id),
            None => filters@.len() == 0,
        },
{
    if filters.len() == 0 {
        return None;
    }
    let mut ctes: Vec<String> = Vec::new();
    let mut joins: Vec<String> = Vec::new();
    let mut conditions: Vec<String> = Vec::new();
    let mut i: usize = 0;
    while i < filters.len()
        invariant
            i <= filters@.len(),
            ctes@.len() == i,
            joins@.len() == i,
            conditions@.len() == i,
            forall|k: int|
                0 <= k < i ==> (#[trigger] ctes@[k])@ == cte_text(filters@[k], table_id),
            forall|k: int| 0 <= k < i ==> (#[trigger] joins@[k])@ == join_text(filters@[k]),
            forall|k: int|
                0 <= k < i ==> (#[trigger] conditions@[k])@ == condition_text(filters@[k]),
        decreases filters@.len() - i,
    {
        ctes.push(cte_of(&filters[i], table_id));
        joins.push(join_of(&filters[i]));
        conditions.push(condition_of(&filters[i]));
        i = i + 1;
    }
    proof {
        assert(views(ctes@) =~= filters@.map_values(
            |filter: RenderedColumnFilter| cte_text(filter, table_id),
        ));
        assert(views(joins@) =~= filters@.map_values(
            |filter: RenderedColumnFilter| join_text(filter),
        ));
        assert(views(conditions@) =~= filters@.map_values(
            |filter: RenderedColumnFilter| condition_text(filter),
        ));
        reveal_strlit("");
        assert(""@ =~= Seq::<char>::empty());
    }
    let ctes_text = join(&ctes, ",\n                 ");
    let mut with_prefix = "WITH ".to_string();
    with_prefix.append(ctes_text.as_str());
    with_prefix.append("\n                 ");
    Some(
        StatsFilterSql { with_prefix, joins: join(&joins, ""), conditions: join(&conditions, "") },
    )
}

// ---------------------------------------------------------------------------
// Optional parts of the catalog
// ---------------------------------------------------------------------------

/// Which optional parts a catalog in PostgreSQL has.
#[derive(Debug, Clone, Copy, PartialEq, Eq)]
pub struct SchemaCapabilities {
    /// Data files record the highest origin of their rows.
    pub data_file_partial_max: bool,
    /// Delete files record the highest snapshot of their deletes.
    pub delete_file_partial_max: bool,
    /// Schema versions are recorded.
    pub schema_versions: bool,
    /// Data files record the partition specification they belong to.
    pub data_file_partition_id: bool,
    /// Tables with inlined rows are registered.
    pub inlined_data_tables: bool,
    /// There can be views.
    pub views: bool,
    /// The server can say whether a text is valid input for a type. This is a
    /// part of the server, not of the catalog, and no reason to probe again.
    pub soft_input_validation: bool,
}

impl Capabilities for SchemaCapabilities {
    open spec fn has_all(self) -> bool {
        &&& self.data_file_partial_max
        &&& self.delete_file_partial_max
        &&& self.schema_versions
        &&& self.data_file_partition_id
        &&& self.inlined_data_tables
        &&& self.views
    }

    fn all(&self) -> (all: bool) {
        self.data_file_partial_max && self.delete_file_partial_max && self.schema_versions
            && self.data_file_partition_id && self.inlined_data_tables && self.views
    }
}

/// `column` where the catalog has it, `NULL` where it does not.
pub open spec fn column_or_null(present: bool, column: Seq<char>) -> Seq<char> {
    if present {
        column
    } else {
        "NULL::bigint"@
    }
}

fn present_or_null(present: bool, column: &'static str) -> (out: &'static str)
    ensures
        out@ == column_or_null(present, column@),
{
    if present {
        column
    } else {
        "NULL::bigint"
    }
}

// ---------------------------------------------------------------------------
// Queries
// ---------------------------------------------------------------------------

/// The schema version that a data file of a page was written under.
pub const PAGE_SCHEMA_VERSION: &'static str = "(SELECT sv.schema_version::bigint
                  FROM ducklake_schema_versions sv
                  WHERE sv.table_id = data.table_id
                    AND sv.begin_snapshot <= data.begin_snapshot
                  ORDER BY sv.begin_snapshot DESC LIMIT 1)";

pub const LISTING_SELECT: &'static str = "SELECT data.data_file_id, data.path, data.path_is_relative,
                        data.file_size_bytes, data.footer_size, data.encryption_key,
                        data.row_id_start, data.record_count,
                        del.delete_file_id, del.path, del.path_is_relative,
                        del.file_size_bytes, del.footer_size, del.encryption_key,
                        del.delete_count, data.begin_snapshot::bigint,
                        ";

pub const LISTING_FROM: &'static str = ",
                        NULL::bigint AS data_partition_id,
                        data.mapping_id::bigint
                 FROM ducklake_data_file AS data
                 LEFT JOIN ducklake_delete_file AS del
                   ON data.data_file_id = del.data_file_id
                  AND del.table_id = $1
                  AND $2 >= del.begin_snapshot
                  AND ($3 < del.end_snapshot OR del.end_snapshot IS NULL)";

pub const LISTING_WHERE: &'static str = "
                 WHERE data.table_id = $4
                   AND $5 >= data.begin_snapshot
                   AND ($6 < data.end_snapshot OR data.end_snapshot IS NULL)
                   AND data.data_file_id > $7";

pub const LISTING_ORDER: &'static str = "
                 ORDER BY data.data_file_id
                 LIMIT $8";

/// One page of the listing of a table's files. The conditions of a filter stand
/// in front of the limit and leave the order alone, so that a page never ends
/// early.
pub open spec fn listing_text(
    capabilities: SchemaCapabilities,
    with_prefix: Seq<char>,
    joins: Seq<char>,
    conditions: Seq<char>,
) -> Seq<char> {
    with_prefix + LISTING_SELECT@
        + column_or_null(capabilities.data_file_partial_max, "data.partial_max::bigint"@)
        + ", "@ + column_or_null(capabilities.schema_versions, PAGE_SCHEMA_VERSION@)
        + LISTING_FROM@ + joins + LISTING_WHERE@ + conditions + LISTING_ORDER@
}

/// The pieces that narrow a listing refer to no parameter, where the filters that they
/// are made of refer to none.
proof fn lemma_free_pieces(sql: StatsFilterSql, filters: Seq<RenderedColumnFilter>, table_id: i64)
    requires
        narrows(sql, filters, table_id),
        forall|i: int| 0 <= i < filters.len() ==> refers_to_no_parameter(#[trigger] filters[i]),
    ensures
        is_free(sql.with_prefix@),
        is_free(sql.joins@),
        is_free(sql.conditions@),
{
    let ctes = filters.map_values(|filter: RenderedColumnFilter| cte_text(filter, table_id));
    let joins = filters.map_values(|filter: RenderedColumnFilter| join_text(filter));
    let conditions = filters.map_values(|filter: RenderedColumnFilter| condition_text(filter));
    assert forall|i: int| 0 <= i < ctes.len() implies is_free(#[trigger] ctes[i]) by {
        lemma_free_cte(filters[i], table_id);
    }
    assert forall|i: int| 0 <= i < joins.len() implies is_free(#[trigger] joins[i]) by {
        lemma_free_join(filters[i]);
    }
    assert forall|i: int| 0 <= i < conditions.len() implies is_free(#[trigger] conditions[i]) by {
        let before = "
                   AND "@;
        reveal_strlit("
                   AND ");
        lemma_free_text(before);
        lemma_free_sum(before, filters[i].condition@);
    }
    reveal_strlit("WITH ");
    reveal_strlit(",\n                 ");
    reveal_strlit("\n                 ");
    lemma_free_text("WITH "@);
    lemma_free_text(",\n                 "@);
    lemma_free_text("\n                 "@);
    lemma_free_joined(ctes, ",\n                 "@);
    let selected = joined(ctes, ",\n                 "@);
    lemma_free_sum("WITH "@, selected);
    lemma_free_sum("WITH "@ + selected, "\n                 "@);
    lemma_free_text(Seq::empty());
    lemma_free_joined(joins, Seq::empty());
    lemma_free_joined(conditions, Seq::empty());
}

proof fn lemma_free_cte(filter: RenderedColumnFilter, table_id: i64)
    requires
        refers_to_no_parameter(filter),
    ensures
        is_free(cte_text(filter, table_id)),
{
    reveal_strlit(" AS (
                     SELECT data_file_id, ");
    reveal_strlit("
                     FROM ducklake_file_column_stats
                     WHERE column_id = ");
    reveal_strlit(" AND table_id = ");
    reveal_strlit("
                 )");
    let select = " AS (
                     SELECT data_file_id, "@;
    let from = "
                     FROM ducklake_file_column_stats
                     WHERE column_id = "@;
    let and = " AND table_id = "@;
    let end = "
                 )"@;
    let stats = joined(views(filter.stats@), ", "@);
    let column = int_text(filter.column_id as int);
    let table = int_text(table_id as int);
    lemma_free_text(select);
    lemma_free_text(from);
    lemma_free_text(and);
    lemma_free_text(end);
    lemma_free_stats(filter);
    lemma_free_number(filter.column_id as int);
    lemma_free_number(table_id as int);
    let s1 = filter.alias@ + select;
    lemma_free_sum(filter.alias@, select);
    let s2 = s1 + stats;
    lemma_free_sum(s1, stats);
    let s3 = s2 + from;
    lemma_free_sum(s2, from);
    let s4 = s3 + column;
    lemma_free_sum(s3, column);
    let s5 = s4 + and;
    lemma_free_sum(s4, and);
    let s6 = s5 + table;
    lemma_free_sum(s5, table);
    let s7 = s6 + end;
    lemma_free_sum(s6, end);
}

proof fn lemma_free_join(filter: RenderedColumnFilter)
    requires
        refers_to_no_parameter(filter),
    ensures
        is_free(join_text(filter)),
{
    reveal_strlit("
                 LEFT JOIN ");
    reveal_strlit(" ON ");
    reveal_strlit(".data_file_id = data.data_file_id");
    let join = "
                 LEFT JOIN "@;
    let (on, end) = (" ON "@, ".data_file_id = data.data_file_id"@);
    lemma_free_text(join);
    lemma_free_text(on);
    lemma_free_text(end);
    let s1 = join + filter.alias@;
    lemma_free_sum(join, filter.alias@);
    let s2 = s1 + on;
    lemma_free_sum(s1, on);
    let s3 = s2 + filter.alias@;
    lemma_free_sum(s2, filter.alias@);
    let s4 = s3 + end;
    lemma_free_sum(s3, end);
}

/// Narrowing adds no parameter: the narrowed listing refers to as many as the whole
/// one, since what is put in refers to none.
pub proof fn lemma_narrowing_adds_no_parameter(
    capabilities: SchemaCapabilities,
    sql: StatsFilterSql,
    filters: Seq<RenderedColumnFilter>,
    table_id: i64,
)
    requires
        narrows(sql, filters, table_id),
        forall|i: int| 0 <= i < filters.len() ==> refers_to_no_parameter(#[trigger] filters[i]),
    ensures
        references(
            listing_text(capabilities, sql.with_prefix@, sql.joins@, sql.conditions@),
        ) == references(listing_text(capabilities, ""@, ""@, ""@)),
{
    reveal_strlit("");
    lemma_free_text(""@);
    lemma_free_pieces(sql, filters, table_id);
    lemma_listing_references(capabilities, sql.with_prefix@, sql.joins@, sql.conditions@);
    lemma_listing_references(capabilities, ""@, ""@, ""@);
}

/// The part of a listing in front of the joins.
spec fn listing_head(capabilities: SchemaCapabilities) -> Seq<char> {
    LISTING_SELECT@ + column_or_null(
        capabilities.data_file_partial_max,
        "data.partial_max::bigint"@,
    ) + ", "@ + column_or_null(capabilities.schema_versions, PAGE_SCHEMA_VERSION@) + LISTING_FROM@
}

proof fn lemma_listing_from()
    ensures
        LISTING_FROM@.len() > 0,
        LISTING_FROM@.last() != '$',
{
    reveal_strlit(",
                        NULL::bigint AS data_partition_id,
                        data.mapping_id::bigint
                 FROM ducklake_data_file AS data
                 LEFT JOIN ducklake_delete_file AS del
                   ON data.data_file_id = del.data_file_id
                  AND del.table_id = $1
                  AND $2 >= del.begin_snapshot
                  AND ($3 < del.end_snapshot OR del.end_snapshot IS NULL)");
}

proof fn lemma_listing_where()
    ensures
        LISTING_WHERE@.len() > 0,
        LISTING_WHERE@.last() != '$',
{
    reveal_strlit("
                 WHERE data.table_id = $4
                   AND $5 >= data.begin_snapshot
                   AND ($6 < data.end_snapshot OR data.end_snapshot IS NULL)
                   AND data.data_file_id > $7");
}

/// A listing refers to its own parameters alone, whatever free pieces are put in.
proof fn lemma_listing_references(
    capabilities: SchemaCapabilities,
    with_prefix: Seq<char>,
    joins: Seq<char>,
    conditions: Seq<char>,
)
    requires
        is_free(with_prefix),
        is_free(joins),
        is_free(conditions),
    ensures
        references(listing_text(capabilities, with_prefix, joins, conditions)) == references(
            listing_head(capabilities),
        ) + references(LISTING_WHERE@) + references(LISTING_ORDER@),
{
    lemma_listing_from();
    lemma_listing_where();
    let head = listing_head(capabilities);
    lemma_last_of_sum(
        LISTING_SELECT@ + column_or_null(
            capabilities.data_file_partial_max,
            "data.partial_max::bigint"@,
        ) + ", "@ + column_or_null(capabilities.schema_versions, PAGE_SCHEMA_VERSION@),
        LISTING_FROM@,
    );
    let tail = conditions + LISTING_ORDER@;
    let middle = LISTING_WHERE@ + tail;
    let rest = joins + middle;
    lemma_references_sum(conditions, LISTING_ORDER@);
    lemma_references_sum(LISTING_WHERE@, tail);
    lemma_references_sum(joins, middle);
    lemma_references_sum(head, rest);
    lemma_references_sum(with_prefix, head + rest);
    lemma_regrouped(
        with_prefix,
        LISTING_SELECT@,
        column_or_null(capabilities.data_file_partial_max, "data.partial_max::bigint"@),
        ", "@,
        column_or_null(capabilities.schema_versions, PAGE_SCHEMA_VERSION@),
        LISTING_FROM@,
        rest,
    );
    lemma_regrouped_end(with_prefix + head, joins, LISTING_WHERE@, conditions, LISTING_ORDER@);
}

proof fn lemma_regrouped_end(
    start: Seq<char>,
    a: Seq<char>,
    b: Seq<char>,
    c: Seq<char>,
    d: Seq<char>,
)
    ensures
        start + a + b + c + d == start + (a + (b + (c + d))),
{
    assert(start + a + b + c + d =~= start + (a + (b + (c + d))));
}

proof fn lemma_last_of_sum(a: Seq<char>, b: Seq<char>)
    requires
        b.len() > 0,
    ensures
        (a + b).len() > 0,
        (a + b).last() == b.last(),
{
}

proof fn lemma_regrouped(
    start: Seq<char>,
    a: Seq<char>,
    b: Seq<char>,
    c: Seq<char>,
    d: Seq<char>,
    e: Seq<char>,
    rest: Seq<char>,
)
    ensures
        start + a + b + c + d + e == start + (a + b + c + d + e),
        start + (a + b + c + d + e) + rest == start + ((a + b + c + d + e) + rest),
{
    assert(start + a + b + c + d + e =~= start + (a + b + c + d + e));
    assert(start + (a + b + c + d + e) + rest =~= start + ((a + b + c + d + e) + rest));
}

/// One page of the listing of a table's files, narrowed where there is a filter.
pub fn file_listing_sql(
    capabilities: &SchemaCapabilities,
    filter_sql: &Option<StatsFilterSql>,
) -> (out: String)
    ensures
        match filter_sql {
            Some(sql) => out@ == listing_text(
                *capabilities,
                sql.with_prefix@,
                sql.joins@,
                sql.conditions@,
            ),
            None => out@ == listing_text(*capabilities, ""@, ""@, ""@),
        },
{
    let (with_prefix, joins, conditions): (&str, &str, &str) = match filter_sql {
        Some(sql) => (sql.with_prefix.as_str(), sql.joins.as_str(), sql.conditions.as_str()),
        None => ("", "", ""),
    };
    let partial_max = present_or_null(
        capabilities.data_file_partial_max,
        "data.partial_max::bigint",
    );
    let schema_version = present_or_null(capabilities.schema_versions, PAGE_SCHEMA_VERSION);
    let mut out = with_prefix.to_string();
    out.append(LISTING_SELECT);
    out.append(partial_max);
    out.append(", ");
    out.append(schema_version);
    out.append(LISTING_FROM);
    out.append(joins);
    out.append(LISTING_WHERE);
    out.append(conditions);
    out.append(LISTING_ORDER);
    out
}

/// The restriction of a query to the ids bound as its parameter number
/// `parameter`.
pub open spec fn bound_ids_text(column: Seq<char>, parameter: u64) -> Seq<char> {
    "
                   AND "@
        + column + " = ANY($"@ + int_text(parameter as int) + "::bigint[])"@
}

/// The restriction where there is a filter, nothing where there is none: then
/// the range of ids is enough.
pub open spec fn restriction_text(
    column: Seq<char>,
    parameter: u64,
    filtered: bool,
) -> Seq<char> {
    if filtered {
        bound_ids_text(column, parameter)
    } else {
        ""@
    }
}

fn restriction_of(column: &str, parameter: u64, filtered: bool) -> (out: String)
    ensures
        out@ == restriction_text(column@, parameter, filtered),
{
    if !filtered {
        return "".to_string();
    }
    let mut out = "
                   AND ".to_string();
    out.append(column);
    out.append(" = ANY($");
    push_u64(&mut out, parameter);
    out.append("::bigint[])");
    out
}

pub const STATISTICS_SELECT: &'static str = "SELECT stats.data_file_id, stats.column_id,
                        stats.column_size_bytes, stats.value_count, stats.null_count,
                        stats.min_value, stats.max_value, stats.contains_nan
                 FROM ducklake_file_column_stats AS stats
                 INNER JOIN ducklake_data_file AS data
                   ON data.data_file_id = stats.data_file_id
                  AND data.table_id = stats.table_id
                 WHERE stats.table_id = $1
                   AND $2 >= data.begin_snapshot
                   AND ($3 < data.end_snapshot OR data.end_snapshot IS NULL)
                   AND stats.data_file_id > $4
                   AND stats.data_file_id <= $5";

pub const STATISTICS_ORDER: &'static str = "
                 ORDER BY stats.data_file_id, stats.column_id";

/// The statistics of the files of a page. Where there is a filter, the ids of the
/// files are bound as the sixth parameter.
pub fn page_statistics_sql(filtered: bool) -> (out: String)
    ensures
        out@ == STATISTICS_SELECT@ + restriction_text("stats.data_file_id"@, 6, filtered)
        + STATISTICS_ORDER@,
{
    let restriction = restriction_of("stats.data_file_id", 6, filtered);
    let mut out = STATISTICS_SELECT.to_string();
    out.append(restriction.as_str());
    out.append(STATISTICS_ORDER);
    out
}

pub const PARTITION_VALUES_SELECT: &'static str = "SELECT data_file_id, partition_key_index, partition_value
                 FROM ducklake_file_partition_value
                 WHERE table_id = $1 AND data_file_id > $2 AND data_file_id <= $3";

/// The partition values of the files of a page. Where there is a filter, the ids
/// of the files are bound as the fourth parameter.
pub fn page_partition_values_sql(filtered: bool) -> (out: String)
    ensures
        out@ == PARTITION_VALUES_SELECT@ + restriction_text("data_file_id"@, 4, filtered),
{
    let restriction = restriction_of("data_file_id", 4, filtered);
    let mut out = PARTITION_VALUES_SELECT.to_string();
    out.append(restriction.as_str());
    out
}

/// The schema version that a data file was written under.
pub const SCHEMA_VERSION_QUERY: &'static str = "(SELECT sv.schema_version::bigint
                  FROM ducklake_schema_versions sv
                  WHERE sv.table_id = data.table_id
                    AND sv.begin_snapshot <= data.begin_snapshot
                  ORDER BY sv.begin_snapshot DESC
                  LIMIT 1)";

pub const SELECT_FILES: &'static str = "SELECT
                    data.data_file_id,
                    data.path AS data_file_path,
                    data.path_is_relative AS data_path_is_relative,
                    data.file_size_bytes AS data_file_size,
                    data.footer_size AS data_footer_size,
                    data.encryption_key AS data_encryption_key,
                    data.row_id_start AS data_row_id_start,
                    data.record_count AS data_record_count,
                    del.delete_file_id,
                    del.path AS delete_file_path,
                    del.path_is_relative AS delete_path_is_relative,
                    del.file_size_bytes AS delete_file_size,
                    del.footer_size AS delete_footer_size,
                    del.encryption_key AS delete_encryption_key,
                    del.delete_count,
                    data.begin_snapshot::bigint AS data_begin_snapshot,
                    ";

pub const SELECT_FILES_FROM: &'static str = " AS data_partition_id,
                    data.mapping_id::bigint AS data_mapping_id
                FROM ducklake_data_file AS data
                LEFT JOIN ducklake_delete_file AS del
                    ON data.data_file_id = del.data_file_id
                    AND del.table_id = $1
                    AND $2 >= del.begin_snapshot
                    AND ($3 < del.end_snapshot OR del.end_snapshot IS NULL)
                WHERE data.table_id = $4
                  AND $5 >= data.begin_snapshot
                  AND ($6 < data.end_snapshot OR data.end_snapshot IS NULL)";

/// All live files of a table.
pub fn select_files_sql(capabilities: &SchemaCapabilities) -> (out: String)
    ensures
        out@ == SELECT_FILES@
        + column_or_null(capabilities.data_file_partial_max, "data.partial_max::bigint"@)
        + " AS data_partial_max,
                    "@
        + column_or_null(capabilities.schema_versions, SCHEMA_VERSION_QUERY@)
        + " AS data_schema_version,
                    "@
        + column_or_null(capabilities.data_file_partition_id, "data.partition_id::bigint"@)
        + SELECT_FILES_FROM@,
{
    let partial_max = present_or_null(
        capabilities.data_file_partial_max,
        "data.partial_max::bigint",
    );
    let schema_version = present_or_null(capabilities.schema_versions, SCHEMA_VERSION_QUERY);
    let partition_id = present_or_null(
        capabilities.data_file_partition_id,
        "data.partition_id::bigint",
    );
    let mut out = SELECT_FILES.to_string();
    out.append(partial_max);
    out.append(" AS data_partial_max,
                    ");
    out.append(schema_version);
    out.append(" AS data_schema_version,
                    ");
    out.append(partition_id);
    out.append(SELECT_FILES_FROM);
    out
}

pub const ADDED_SELECT: &'static str = "SELECT
                    data.begin_snapshot,
                    data.path,
                    data.path_is_relative,
                    data.file_size_bytes,
                    data.footer_size,
                    data.encryption_key,
                    data.row_id_start,
                    ";

pub const ADDED_WHERE: &'static str = ",
                    data.mapping_id
                FROM ducklake_data_file AS data
                WHERE data.table_id = $1
                  AND data.begin_snapshot <= $3
                  AND (data.begin_snapshot >= $2
                       OR (";

/// The data files added between two snapshots. A file with rows of several
/// snapshots counts by its latest row.
pub fn added_files_sql(capabilities: &SchemaCapabilities) -> (out: String)
    ensures
        out@ == ({
            let latest = column_or_null(
                capabilities.data_file_partial_max,
                "data.partial_max::bigint"@,
            );
            ADDED_SELECT@ + latest + ADDED_WHERE@ + latest + " IS NOT NULL AND "@ + latest
        + " >= $2))
                ORDER BY data.begin_snapshot"@
        }),
{
    let latest = present_or_null(capabilities.data_file_partial_max, "data.partial_max::bigint");
    let mut out = ADDED_SELECT.to_string();
    out.append(latest);
    out.append(ADDED_WHERE);
    out.append(latest);
    out.append(" IS NOT NULL AND ");
    out.append(latest);
    out.append(" >= $2))
                ORDER BY data.begin_snapshot");
    out
}

pub const DELETES_SELECT: &'static str = "
WITH current_delete AS (
    SELECT
        ddf.data_file_id,
        ddf.begin_snapshot,
        ddf.path,
        ddf.path_is_relative,
        ddf.file_size_bytes,
        ddf.footer_size,
        ddf.encryption_key
    FROM ducklake_delete_file ddf
    WHERE ddf.table_id = $1
      AND ddf.begin_snapshot <= $3
      AND (ddf.begin_snapshot >= $2
           OR (";

pub const DELETES_REST: &'static str = " >= $2))
),

data_files AS (
    SELECT df.*
    FROM ducklake_data_file df
    WHERE df.table_id = $1
)

-- Part 1: Incremental deletes
SELECT
    data.path,
    data.path_is_relative,
    data.file_size_bytes,
    data.footer_size,
    data.row_id_start,
    data.record_count,
    data.mapping_id,
    current_delete.path,
    current_delete.path_is_relative,
    current_delete.file_size_bytes,
    current_delete.footer_size,
    prev.path,
    prev.path_is_relative,
    prev.file_size_bytes,
    prev.footer_size,
    current_delete.begin_snapshot
FROM current_delete
JOIN data_files data USING (data_file_id)
LEFT JOIN LATERAL (
    SELECT
        ddf.path,
        ddf.path_is_relative,
        ddf.file_size_bytes,
        ddf.footer_size
    FROM ducklake_delete_file ddf
    WHERE ddf.table_id = $1
      AND ddf.data_file_id = current_delete.data_file_id
      AND ddf.begin_snapshot < current_delete.begin_snapshot
    ORDER BY ddf.begin_snapshot DESC
    LIMIT 1
) prev ON true

UNION ALL

-- Part 2: Full file deletes
SELECT
    data.path,
    data.path_is_relative,
    data.file_size_bytes,
    data.footer_size,
    data.row_id_start,
    data.record_count,
    data.mapping_id,
    NULL::VARCHAR,
    NULL::BOOLEAN,
    NULL::BIGINT,
    NULL::BIGINT,
    prev.path,
    prev.path_is_relative,
    prev.file_size_bytes,
    prev.footer_size,
    data.end_snapshot
FROM ducklake_data_file data
LEFT JOIN LATERAL (
    SELECT
        ddf.path,
        ddf.path_is_relative,
        ddf.file_size_bytes,
        ddf.footer_size
    FROM ducklake_delete_file ddf
    WHERE ddf.table_id = $1
      AND ddf.data_file_id = data.data_file_id
      AND ddf.begin_snapshot < data.end_snapshot
    ORDER BY ddf.begin_snapshot DESC
    LIMIT 1
) prev ON true
WHERE data.table_id = $1
  AND data.end_snapshot >= $2
  AND data.end_snapshot <= $3
";

/// The deletes added between two snapshots: delete files, and data files that
/// were removed whole.
pub fn added_deletes_sql(capabilities: &SchemaCapabilities) -> (out: String)
    ensures
        out@ == ({
            let latest = column_or_null(
                capabilities.delete_file_partial_max,
                "ddf.partial_max::bigint"@,
            );
            DELETES_SELECT@ + latest + " IS NOT NULL AND "@ + latest + DELETES_REST@
        }),
{
    let latest = present_or_null(capabilities.delete_file_partial_max, "ddf.partial_max::bigint");
    let mut out = DELETES_SELECT.to_string();
    out.append(latest);
    out.append(" IS NOT NULL AND ");
    out.append(latest);
    out.append(DELETES_REST);
    out
}

// ---------------------------------------------------------------------------
// Inlined rows
// ---------------------------------------------------------------------------

/// A condition on inlined rows, behind the one on the snapshot.
pub open spec fn pushed_text(condition: Option<String>) -> Seq<char> {
    match condition {
        Some(condition) => " AND ("@ + condition@ + ")"@,
        None => ""@,
    }
}

pub const INLINED_WHERE: &'static str = " WHERE $1 >= begin_snapshot AND ($2 < end_snapshot OR end_snapshot IS NULL)";

/// The inlined rows of `table` that a snapshot shows, and that `condition` admits
/// where there is one. `projections` says how each of the `columns` is read; one
/// that the table lacks reads as `NULL`.
pub fn inlined_data_sql(
    table: &str,
    columns: &Vec<String>,
    projections: &Vec<String>,
    present: &Vec<String>,
    condition: Option<String>,
) -> (out: String)
    requires
        projections@.len() == columns@.len(),
    ensures
        out@ == "SELECT "@
        + projected_text(views(columns@), views(projections@), views(present@), "NULL::text"@)
        + " FROM "@ + quoted(table@, '"') + INLINED_WHERE@ + pushed_text(condition)
        + " ORDER BY row_id"@,
{
    let projected = project_columns(columns, projections, present, "NULL::text");
    let name = quote_ident(table);
    let pushed = match condition {
        Some(condition) => {
            let mut out = " AND (".to_string();
            out.append(condition.as_str());
            out.append(")");
            out
        },
        None => "".to_string(),
    };
    let mut out = "SELECT ".to_string();
    out.append(projected.as_str());
    out.append(" FROM ");
    out.append(name.as_str());
    out.append(INLINED_WHERE);
    out.append(pushed.as_str());
    out.append(" ORDER BY row_id");
    out
}

pub const INLINED_ROWS_WHERE: &'static str = "
                     WHERE $1 >= begin_snapshot AND ($2 < end_snapshot OR end_snapshot IS NULL)
                     ORDER BY begin_snapshot, row_id";

/// The inlined rows of `table` that a snapshot shows, with their row ids and the
/// snapshots that added them.
pub fn inlined_rows_sql(
    table: &str,
    columns: &Vec<String>,
    projections: &Vec<String>,
    present: &Vec<String>,
) -> (out: String)
    requires
        projections@.len() == columns@.len(),
    ensures
        out@ == "SELECT row_id, begin_snapshot, "@
        + projected_text(views(columns@), views(projections@), views(present@), "NULL::text"@)
        + " FROM "@ + quoted(table@, '"') + INLINED_ROWS_WHERE@,
{
    let projected = project_columns(columns, projections, present, "NULL::text");
    let name = quote_ident(table);
    let mut out = "SELECT row_id, begin_snapshot, ".to_string();
    out.append(projected.as_str());
    out.append(" FROM ");
    out.append(name.as_str());
    out.append(INLINED_ROWS_WHERE);
    out
}

/// The inlined deletes that a snapshot shows, kept in `table`.
pub fn inlined_deletes_sql(table: &str) -> (out: String)
    ensures
        out@ == "SELECT file_id, row_id FROM "@ + quoted(table@, '"')
        + " WHERE begin_snapshot <= $1 ORDER BY file_id, row_id"@,
{
    let name = quote_ident(table);
    let mut out = "SELECT file_id, row_id FROM ".to_string();
    out.append(name.as_str());
    out.append(" WHERE begin_snapshot <= $1 ORDER BY file_id, row_id");
    out
}

/// A catalog that lacks a part is probed again, whichever part it is, and one that has
/// them all is not.
pub proof fn lemma_missing_part(capabilities: SchemaCapabilities)
    ensures
        !capabilities.has_all() <==> !capabilities.data_file_partial_max || !capabilities.delete_file_partial_max
            || !capabilities.schema_versions
            || !capabilities.data_file_partition_id
            || !capabilities.inlined_data_tables
            || !capabilities.views,
{
}

} // verus!
