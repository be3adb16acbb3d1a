//! A catalog kept in SQLite: its SQL dialect and its queries.

use vstd::prelude::*;
use crate::capabilities::Capabilities;
use crate::file_page::id_list;
use crate::inlined::{present_columns, quote_present};
use crate::metadata::{DuckLakeTableFile, RenderedColumnFilter};
use crate::order::opt_view;
use crate::parameters::{
    is_harmless, is_harmless_filter, is_open, lemma_harmless_joined, lemma_harmless_number,
    lemma_harmless_stats, lemma_harmless_sum, lemma_harmless_text, lemma_placeholders_sum,
    lemma_unquoted_text, placeholders,
};
use crate::scan::{ascii_lowered, contains_text, lower_ascii, text_contains};
use crate::stats_encode::{is_canonical_date, is_canonical_timestamp, is_canonical_timestamptz,
    is_date_text, is_timestamp_text, is_timestamptz_text};
use crate::text::{int_text, join, joined, push_i64, quote_with, quoted, views};
use crate::types::DataType;

verus! {

/// Whether a query failed because the catalog does not have the table it reads.
pub fn is_missing_statistics_table(message: &str) -> (missing: bool)
    ensures
        missing == (contains_text(ascii_lowered(message@), "no such table"@) || contains_text(
            ascii_lowered(message@),
            "does not exist"@,
        )),
{
    let lowered = lower_ascii(message);
    text_contains(lowered.as_str(), "no such table") || text_contains(
        lowered.as_str(),
        "does not exist",
    )
}

/// `name` as an identifier, whatever it holds.
pub fn quote_ident(name: &str) -> (out: String)
    ensures
        out@ == quoted(name@, '"'),
{
    quote_with(name, '"')
}

// ---------------------------------------------------------------------------
// Comparing statistics with a constant
// ---------------------------------------------------------------------------

/// SQLite's spelling of the comparisons with statistics.
///
/// A cast never fails in SQLite: what it cannot read becomes zero. So every cast
/// is guarded by a test that the text is the number it is about to be read as,
/// and yields `NULL` where it is not.
pub struct SqliteStatsDialect;

/// The condition that `expr` holds a number with one point in it, and digits.
pub open spec fn fixed_decimal_text(expr: Seq<char>) -> Seq<char> {
    expr + " GLOB '[-0-9]*' AND NOT ("@ + expr + " GLOB '?*-*') AND ltrim("@ + expr
        + ", '-') GLOB '*[0-9]*' AND rtrim(ltrim(ltrim("@ + expr
        + ", '-'), '0123456789'), '0123456789') = '.'"@
}

/// Whether a statistic is a number with a point, as SQL.
pub fn sqlite_is_fixed_decimal_text(expr: &str) -> (out: String)
    ensures
        out@ == fixed_decimal_text(expr@),
{
    let mut out = expr.to_string();
    out.append(" GLOB '[-0-9]*' AND NOT (");
    out.append(expr);
    out.append(" GLOB '?*-*') AND ltrim(");
    out.append(expr);
    out.append(", '-') GLOB '*[0-9]*' AND rtrim(ltrim(ltrim(");
    out.append(expr);
    out.append(", '-'), '0123456789'), '0123456789') = '.'");
    out
}

/// Where the exponent of `expr` starts.
pub open spec fn exponent_mark(expr: Seq<char>) -> Seq<char> {
    "instr("@ + expr + ", 'e')"@
}

/// What stands in front of the exponent.
pub open spec fn mantissa_text(expr: Seq<char>) -> Seq<char> {
    "substr("@ + expr + ", 1, "@ + exponent_mark(expr) + " - 1)"@
}

/// The digits of the exponent.
pub open spec fn exponent_text(expr: Seq<char>) -> Seq<char> {
    "substr("@ + expr + ", "@ + exponent_mark(expr) + " + 2)"@
}

/// The condition that `expr` holds a number in scientific notation: a mantissa,
/// `e`, a sign, digits.
pub open spec fn scientific_text(expr: Seq<char>) -> Seq<char> {
    exponent_mark(expr) + " > 1 AND "@ + mantissa_text(expr)
        + " GLOB '[-0-9]*' AND NOT ("@ + mantissa_text(expr) + " GLOB '?*-*') AND ltrim("@
        + mantissa_text(expr) + ", '-') GLOB '*[0-9]*' AND rtrim(ltrim(ltrim("@
        + mantissa_text(expr)
        + ", '-'), '0123456789'), '0123456789') IN ('', '.') AND substr("@ + expr + ", "@
        + exponent_mark(expr) + " + 1, 1) GLOB '[-+]' AND length("@ + expr + ") > "@
        + exponent_mark(expr) + " + 1 AND "@ + exponent_text(expr)
        + " GLOB '[0-9]*' AND NOT ("@ + exponent_text(expr) + " GLOB '*[^0-9]*')"@
}

/// Whether a statistic is a number in scientific notation, as SQL.
pub fn sqlite_is_scientific_text(expr: &str) -> (out: String)
    ensures
        out@ == scientific_text(expr@),
{
    let mark = {
        let mut out = "instr(".to_string();
        out.append(expr);
        out.append(", 'e')");
        out
    };
    let e = mark.as_str();
    let mantissa_string = {
        let mut out = "substr(".to_string();
        out.append(expr);
        out.append(", 1, ");
        out.append(e);
        out.append(" - 1)");
        out
    };
    let mantissa = mantissa_string.as_str();
    let exponent_string = {
        let mut out = "substr(".to_string();
        out.append(expr);
        out.append(", ");
        out.append(e);
        out.append(" + 2)");
        out
    };
    let exponent = exponent_string.as_str();
    let mut out = e.to_string();
    out.append(" > 1 AND ");
    out.append(mantissa);
    out.append(" GLOB '[-0-9]*' AND NOT (");
    out.append(mantissa);
    out.append(" GLOB '?*-*') AND ltrim(");
    out.append(mantissa);
    out.append(", '-') GLOB '*[0-9]*' AND rtrim(ltrim(ltrim(");
    out.append(mantissa);
    out.append(", '-'), '0123456789'), '0123456789') IN ('', '.') AND substr(");
    out.append(expr);
    out.append(", ");
    out.append(e);
    out.append(" + 1, 1) GLOB '[-+]' AND length(");
    out.append(expr);
    out.append(") > ");
    out.append(e);
    out.append(" + 1 AND ");
    out.append(exponent);
    out.append(" GLOB '[0-9]*' AND NOT (");
    out.append(exponent);
    out.append(" GLOB '*[^0-9]*')");
    out
}

/// The condition that `expr` holds a number in either notation.
pub open spec fn float_text(expr: Seq<char>) -> Seq<char> {
    "(("@ + fixed_decimal_text(expr) + ") OR ("@ + scientific_text(expr) + "))"@
}

/// Whether a statistic is a float exactly as one is written, as SQL.
pub fn sqlite_is_float_text(expr: &str) -> (out: String)
    ensures
        out@ == float_text(expr@),
{
    let fixed = sqlite_is_fixed_decimal_text(expr);
    let scientific = sqlite_is_scientific_text(expr);
    let mut out = "((".to_string();
    out.append(fixed.as_str());
    out.append(") OR (");
    out.append(scientific.as_str());
    out.append("))");
    out
}

/// `expr` where `guard` holds, `NULL` elsewhere.
pub open spec fn guarded_text(expr: Seq<char>, guard: Seq<char>) -> Seq<char> {
    "CASE WHEN "@ + guard + " THEN "@ + expr + " END COLLATE BINARY"@
}

/// `expr` compared as text, but only where `guard` holds.
pub fn sqlite_guarded_text(expr: &str, guard: &str) -> (out: String)
    ensures
        out@ == guarded_text(expr@, guard@),
{
    let mut out = "CASE WHEN ".to_string();
    out.append(guard);
    out.append(" THEN ");
    out.append(expr);
    out.append(" END COLLATE BINARY");
    out
}

/// The pattern of a date with a four-digit year.
pub const SQLITE_DATE_GLOB: &'static str = "[0-9][0-9][0-9][0-9]-[0-9][0-9]-[0-9][0-9]";

/// The condition that `expr` holds a canonical date.
pub open spec fn date_condition(expr: Seq<char>) -> Seq<char> {
    expr + " GLOB '"@ + SQLITE_DATE_GLOB@ + "'"@
}

/// Whether a statistic is a canonical date, as SQL.
pub fn sqlite_is_canonical_date(expr: &str) -> (out: String)
    ensures
        out@ == date_condition(expr@),
{
    let mut out = expr.to_string();
    out.append(" GLOB '");
    out.append(SQLITE_DATE_GLOB);
    out.append("'");
    out
}

/// The condition that `expr` holds a canonical timestamp: the first nineteen
/// characters by pattern, then nothing, or a point and digits that do not end in
/// `0`.
pub open spec fn timestamp_condition(expr: Seq<char>) -> Seq<char> {
    expr + " GLOB '"@ + SQLITE_DATE_GLOB@
        + " [0-9][0-9]:[0-9][0-9]:[0-9][0-9]*' AND (substr("@ + expr
        + ", 20) = '' OR (substr("@ + expr + ", 20) GLOB '.[0-9]*' AND ltrim(substr("@
        + expr + ", 21), '0123456789') = '' AND NOT ("@ + expr + " GLOB '*0')))"@
}

/// Whether a statistic is a canonical timestamp, as SQL.
pub fn sqlite_is_canonical_timestamp(expr: &str) -> (out: String)
    ensures
        out@ == timestamp_condition(expr@),
{
    let mut out = expr.to_string();
    out.append(" GLOB '");
    out.append(SQLITE_DATE_GLOB);
    out.append(" [0-9][0-9]:[0-9][0-9]:[0-9][0-9]*' AND (substr(");
    out.append(expr);
    out.append(", 20) = '' OR (substr(");
    out.append(expr);
    out.append(", 20) GLOB '.[0-9]*' AND ltrim(substr(");
    out.append(expr);
    out.append(", 21), '0123456789') = '' AND NOT (");
    out.append(expr);
    out.append(" GLOB '*0')))");
    out
}

/// `expr` without its last three characters.
pub open spec fn without_offset(expr: Seq<char>) -> Seq<char> {
    "substr("@ + expr + ", 1, length("@ + expr + ") - 3)"@
}

/// The condition that `expr` holds a canonical timestamp in UTC.
pub open spec fn timestamptz_condition(expr: Seq<char>) -> Seq<char> {
    expr + " GLOB '*+00' AND "@ + timestamp_condition(without_offset(expr))
}

/// Whether a statistic is a canonical timestamp in UTC, as SQL.
pub fn sqlite_is_canonical_timestamptz(expr: &str) -> (out: String)
    ensures
        out@ == timestamptz_condition(expr@),
{
    let body = {
        let mut out = "substr(".to_string();
        out.append(expr);
        out.append(", 1, length(");
        out.append(expr);
        out.append(") - 3)");
        out
    };
    let condition = sqlite_is_canonical_timestamp(body.as_str());
    let mut out = expr.to_string();
    out.append(" GLOB '*+00' AND ");
    out.append(condition.as_str());
    out
}

/// `expr` for a comparison byte by byte.
pub open spec fn binary_text(expr: Seq<char>) -> Seq<char> {
    expr + " COLLATE BINARY"@
}

/// The value of a statistic for comparison with a constant.
///
/// Fixed-point numbers are not compared: SQLite would round them. Temporal ones
/// are compared as text, and only where the constant has the canonical spelling.
pub open spec fn sqlite_cast_text(
    expr: Seq<char>,
    constant: Seq<char>,
    data_type: DataType,
) -> Option<Seq<char>> {
    match data_type {
        DataType::Float32 | DataType::Float64 => Some(
            "CASE WHEN "@ + float_text(expr) + " THEN CAST("@ + expr + " AS REAL) END"@,
        ),
        DataType::Boolean => Some(
            guarded_text(expr, binary_text(expr) + " IN ('true', 'false')"@),
        ),
        DataType::Date32 => if is_date_text(constant) {
            Some(guarded_text(expr, date_condition(expr)))
        } else {
            None
        },
        DataType::Timestamp(_, None) => if is_timestamp_text(constant) {
            Some(guarded_text(expr, timestamp_condition(expr)))
        } else {
            None
        },
        DataType::Timestamp(_, Some(_)) => if is_timestamptz_text(constant) {
            Some(guarded_text(expr, timestamptz_condition(expr)))
        } else {
            None
        },
        _ => if data_type.is_integer_type() {
            Some(
                "CASE WHEN "@ + expr + " = CAST(CAST("@ + expr + " AS INTEGER) AS TEXT) THEN CAST("@
        + expr + " AS INTEGER) END"@,
            )
        } else {
            None
        },
    }
}

impl SqliteStatsDialect {
    /// The statistic `expr` as a value to compare `constant` with, or `None`
    /// where the comparison is not to be made.
    pub fn try_cast(&self, expr: &str, constant: &str, data_type: &DataType) -> (out: Option<
        String,
    >)
        ensures
            opt_view(out) == sqlite_cast_text(expr@, constant@, *data_type),
    {
        match data_type {
            DataType::Float32 | DataType::Float64 => {
                let condition = sqlite_is_float_text(expr);
                Some({
                    let mut out = "CASE WHEN ".to_string();
                    out.append(condition.as_str());
                    out.append(" THEN CAST(");
                    out.append(expr);
                    out.append(" AS REAL) END");
                    out
                })
            },
            DataType::Boolean => {
                let text = self.collate_binary(expr);
                let condition = {
                    let mut out = text.as_str().to_string();
                    out.append(" IN ('true', 'false')");
                    out
                };
                Some(sqlite_guarded_text(expr, condition.as_str()))
            },
            DataType::Date32 => {
                if is_canonical_date(constant) {
                    let condition = sqlite_is_canonical_date(expr);
                    Some(sqlite_guarded_text(expr, condition.as_str()))
                } else {
                    None
                }
            },
            DataType::Timestamp(_, None) => {
                if is_canonical_timestamp(constant) {
                    let condition = sqlite_is_canonical_timestamp(expr);
                    Some(sqlite_guarded_text(expr, condition.as_str()))
                } else {
                    None
                }
            },
            DataType::Timestamp(_, Some(_)) => {
                if is_canonical_timestamptz(constant) {
                    let condition = sqlite_is_canonical_timestamptz(expr);
                    Some(sqlite_guarded_text(expr, condition.as_str()))
                } else {
                    None
                }
            },
            _ => {
                if data_type.is_integer() {
                    Some({
                        let mut out = "CASE WHEN ".to_string();
                        out.append(expr);
                        out.append(" = CAST(CAST(");
                        out.append(expr);
                        out.append(" AS INTEGER) AS TEXT) THEN CAST(");
                        out.append(expr);
                        out.append(" AS INTEGER) END");
                        out
                    })
                } else {
                    None
                }
            },
        }
    }

    /// `expr` for a comparison byte by byte, whatever collation its column was
    /// declared with.
    pub fn collate_binary(&self, expr: &str) -> (out: String)
        ensures
            out@ == binary_text(expr@),
    {
        let mut out = expr.to_string();
        out.append(" COLLATE BINARY");
        out
    }

    /// The condition that `expr` is unknown or not false; false is stored as `0`.
    pub fn boolean_is_not_false(&self, expr: &str) -> (out: String)
        ensures
            out@ == expr@ + " IS NULL OR "@ + expr@ + " <> 0"@,
    {
        let mut out = expr.to_string();
        out.append(" IS NULL OR ");
        out.append(expr);
        out.append(" <> 0");
        out
    }
}

// ---------------------------------------------------------------------------
// What a filter on statistics adds to the listing
// ---------------------------------------------------------------------------

/// The pieces of SQL that narrow the listing of files.
#[derive(Debug, Clone, PartialEq, Eq)]
pub struct StatsFilterSql {
    /// The `WITH` clause, ended by a line break.
    pub cte: String,
    /// One join for each filtered column.
    pub joins: String,
    /// The conditions, each behind an `AND`.
    pub conditions: String,
}

/// The common table expression that selects the statistics of one column.
pub open spec fn cte_text(filter: RenderedColumnFilter, table_id: i64) -> Seq<char> {
    filter.alias@ + " AS (SELECT data_file_id, "@ + joined(views(filter.stats@), ", "@)
        + "
                 FROM ducklake_file_column_stats
                 WHERE column_id = "@
        + int_text(filter.column_id as int) + " AND table_id = "@
        + int_text(table_id as int) + ")"@
}

/// The join that brings the statistics of one column in.
pub open spec fn join_text(filter: RenderedColumnFilter) -> Seq<char> {
    "
                 LEFT JOIN "@
        + filter.alias@ + " ON "@ + filter.alias@ + ".data_file_id = data.data_file_id"@
}

/// The condition on the statistics of one column.
pub open spec fn condition_text(filter: RenderedColumnFilter) -> Seq<char> {
    "
                   AND "@
        + filter.condition@
}

/// Whether `sql` narrows the listing by `filters`.
pub open spec fn narrows(
    sql: StatsFilterSql,
    filters: Seq<RenderedColumnFilter>,
    table_id: i64,
) -> bool {
    &&& sql.cte@ == "WITH "@ + joined(
        filters.map_values(|filter: RenderedColumnFilter| cte_text(filter, table_id)),
        ",\n     "@,
    ) + "\n"@
    &&& sql.joins@ == joined(
        filters.map_values(|filter: RenderedColumnFilter| join_text(filter)),
        Seq::empty(),
    )
    &&& sql.conditions@ == joined(
        filters.map_values(|filter: RenderedColumnFilter| condition_text(filter)),
        Seq::empty(),
    )
}

fn cte_of(filter: &RenderedColumnFilter, table_id: i64) -> (out: String)
    ensures
        out@ == cte_text(*filter, table_id),
{
    let stats = join(&filter.stats, ", ");
    let mut out = filter.alias.clone();
    out.append(" AS (SELECT data_file_id, ");
    out.append(stats.as_str());
    out.append("
                 FROM ducklake_file_column_stats
                 WHERE column_id = ");
    push_i64(&mut out, filter.column_id);
    out.append(" AND table_id = ");
    push_i64(&mut out, table_id);
    out.append(")");
    out
}

fn join_of(filter: &RenderedColumnFilter) -> (out: String)
    ensures
        out@ == join_text(*filter),
{
    let mut out = "
                 LEFT JOIN ".to_string();
    out.append(filter.alias.as_str());
    out.append(" ON ");
    out.append(filter.alias.as_str());
    out.append(".data_file_id = data.data_file_id");
    out
}

fn condition_of(filter: &RenderedColumnFilter) -> (out: String)
    ensures
        out@ == condition_text(*filter),
{
    let mut out = "
                   AND ".to_string();
    out.append(filter.condition.as_str());
    out
}

/// What the statistics of `rendered` add to the listing of a table's files, or
/// `None` when there is no filter. No parameter is added: all values stand in
/// the text.
pub fn stats_filter_sql(rendered: &Option<Vec<RenderedColumnFilter>>, table_id: i64) -> (out:
    Option<StatsFilterSql>)
    ensures
        match rendered {
            Some(filters) => out matches Some(sql) && narrows(sql, filters@, table_id),
            None => out is None,
        },
{
    match rendered {
        None => None,
        Some(filters) => {
            let mut ctes: Vec<String> = Vec::new();
            let mut joins: Vec<String> = Vec::new();
            let mut conditions: Vec<String> = Vec::new();
            let mut i: usize = 0;
            while i < filters.len()
                invariant
                    i <= filters@.len(),
                    ctes@.len() == i,
                    joins@.len() == i,
                    conditions@.len() == i,
                    forall|k: int|
                        0 <= k < i ==> (#[trigger] ctes@[k])@ == cte_text(filters@[k], table_id),
                    forall|k: int| 0 <= k < i ==> (#[trigger] joins@[k])@ == join_text(filters@[k]),
                    forall|k: int|
                        0 <= k < i ==> (#[trigger] conditions@[k])@ == condition_text(filters@[k]),
                decreases filters@.len() - i,
            {
                ctes.push(cte_of(&filters[i], table_id));
                joins.push(join_of(&filters[i]));
                conditions.push(condition_of(&filters[i]));
                i = i + 1;
            }
            proof {
                assert(views(ctes@) =~= filters@.map_values(
                    |filter: RenderedColumnFilter| cte_text(filter, table_id),
                ));
                assert(views(joins@) =~= filters@.map_values(
                    |filter: RenderedColumnFilter| join_text(filter),
                ));
                assert(views(conditions@) =~= filters@.map_values(
                    |filter: RenderedColumnFilter| condition_text(filter),
                ));
                reveal_strlit("");
                assert(""@ =~= Seq::<char>::empty());
            }
            let ctes_text = join(&ctes, ",\n     ");
            let mut cte = "WITH ".to_string();
            cte.append(ctes_text.as_str());
            cte.append("\n");
            Some(
                StatsFilterSql { cte, joins: join(&joins, ""), conditions: join(&conditions, "") },
            )
        },
    }
}

// ---------------------------------------------------------------------------
// Optional parts of the catalog
// ---------------------------------------------------------------------------

/// Which optional parts a catalog in SQLite has.
#[derive(Debug, Clone, Copy, PartialEq, Eq)]
pub struct SchemaCapabilities {
    /// Data files record the highest origin of their rows.
    pub data_file_partial_max: bool,
    /// Delete files record the highest snapshot of their deletes.
    pub delete_file_partial_max: bool,
    /// Data files record the partition specification they belong to.
    pub data_file_partition_id: bool,
    /// Schema versions are recorded.
    pub schema_versions: bool,
    /// Tables with inlined rows are registered.
    pub inlined_data_tables: bool,
    /// There can be views.
    pub views: bool,
}

impl Capabilities for SchemaCapabilities {
    open spec fn has_all(self) -> bool {
        &&& self.data_file_partial_max
        &&& self.delete_file_partial_max
        &&& self.data_file_partition_id
        &&& self.schema_versions
        &&& self.inlined_data_tables
        &&& self.views
    }

    fn all(&self) -> (all: bool) {
        self.data_file_partial_max && self.delete_file_partial_max && self.data_file_partition_id
            && self.schema_versions && self.inlined_data_tables && self.views
    }
}

/// The schema version that a data file was written under.
pub const SCHEMA_VERSION_QUERY: &'static str = "(SELECT sv.schema_version
                  FROM ducklake_schema_versions sv
                  WHERE sv.table_id = data.table_id
                    AND sv.begin_snapshot <= data.begin_snapshot
                  ORDER BY sv.begin_snapshot DESC
                  LIMIT 1)";

/// `column` where the catalog has it, `NULL` where it does not.
pub open spec fn column_or_null(present: bool, column: Seq<char>) -> Seq<char> {
    if present {
        column
    } else {
        "NULL"@
    }
}

fn present_or_null(present: bool, column: &'static str) -> (out: &'static str)
    ensures
        out@ == column_or_null(present, column@),
{
    if present {
        column
    } else {
        "NULL"
    }
}

// ---------------------------------------------------------------------------
// Queries
// ---------------------------------------------------------------------------

pub const LISTING_SELECT: &'static str = "SELECT
                    data.data_file_id, data.path, data.path_is_relative,
                    data.file_size_bytes, data.footer_size, data.encryption_key,
                    data.row_id_start, data.record_count,
                    del.delete_file_id, del.path, del.path_is_relative,
                    del.file_size_bytes, del.footer_size, del.encryption_key,
                    del.delete_count, data.begin_snapshot,
                    ";

pub const LISTING_FROM: &'static str = ",
                    data.mapping_id
                 FROM ducklake_data_file AS data
                 LEFT JOIN ducklake_delete_file AS del
                   ON data.data_file_id = del.data_file_id
                  AND del.table_id = ?
                  AND ? >= del.begin_snapshot
                  AND (? < del.end_snapshot OR del.end_snapshot IS NULL)";

pub const LISTING_WHERE: &'static str = "
                 WHERE data.table_id = ?
                   AND ? >= data.begin_snapshot
                   AND (? < data.end_snapshot OR data.end_snapshot IS NULL)
                   AND data.data_file_id > ?";

pub const LISTING_ORDER: &'static str = "
                 ORDER BY data.data_file_id
                 LIMIT ?";

/// One page of the listing of a table's files. The conditions of a filter stand
/// in front of the limit and leave the order alone, so that a page never ends
/// early.
pub open spec fn listing_text(
    capabilities: SchemaCapabilities,
    cte: Seq<char>,
    joins: Seq<char>,
    conditions: Seq<char>,
) -> Seq<char> {
    cte + LISTING_SELECT@
        + column_or_null(capabilities.data_file_partial_max, "data.partial_max"@) + ", "@
        + column_or_null(capabilities.schema_versions, SCHEMA_VERSION_QUERY@) + ", "@
        + column_or_null(capabilities.data_file_partition_id, "data.partition_id"@)
        + LISTING_FROM@ + joins + LISTING_WHERE@ + conditions + LISTING_ORDER@
}

/// The pieces that narrow a listing are harmless, where the filters that they are made
/// of are.
proof fn lemma_harmless_pieces(
    sql: StatsFilterSql,
    filters: Seq<RenderedColumnFilter>,
    table_id: i64,
)
    requires
        narrows(sql, filters, table_id),
        forall|i: int| 0 <= i < filters.len() ==> is_harmless_filter(#[trigger] filters[i]),
    ensures
        is_harmless(sql.cte@),
        is_harmless(sql.joins@),
        is_harmless(sql.conditions@),
{
    let ctes = filters.map_values(|filter: RenderedColumnFilter| cte_text(filter, table_id));
    let joins = filters.map_values(|filter: RenderedColumnFilter| join_text(filter));
    let conditions = filters.map_values(|filter: RenderedColumnFilter| condition_text(filter));
    assert forall|i: int| 0 <= i < ctes.len() implies is_harmless(#[trigger] ctes[i]) by {
        lemma_harmless_cte(filters[i], table_id);
    }
    assert forall|i: int| 0 <= i < joins.len() implies is_harmless(#[trigger] joins[i]) by {
        lemma_harmless_join(filters[i]);
    }
    assert forall|i: int| 0 <= i < conditions.len() implies is_harmless(
        #[trigger] conditions[i],
    ) by {
        let before = "
                   AND "@;
        reveal_strlit("
                   AND ");
        lemma_harmless_text(before);
        lemma_harmless_sum(before, filters[i].condition@);
    }
    reveal_strlit("WITH ");
    reveal_strlit(",\n     ");
    reveal_strlit("\n");
    lemma_harmless_text("WITH "@);
    lemma_harmless_text(",\n     "@);
    lemma_harmless_text("\n"@);
    lemma_harmless_text(Seq::empty());
    lemma_harmless_joined(ctes, ",\n     "@);
    lemma_harmless_joined(joins, Seq::empty());
    lemma_harmless_joined(conditions, Seq::empty());
    let selected = joined(ctes, ",\n     "@);
    lemma_harmless_sum("WITH "@, selected);
    lemma_harmless_sum("WITH "@ + selected, "\n"@);
}

proof fn lemma_harmless_cte(filter: RenderedColumnFilter, table_id: i64)
    requires
        is_harmless_filter(filter),
    ensures
        is_harmless(cte_text(filter, table_id)),
{
    reveal_strlit(" AS (SELECT data_file_id, ");
    reveal_strlit("
                 FROM ducklake_file_column_stats
                 WHERE column_id = ");
    reveal_strlit(" AND table_id = ");
    reveal_strlit(")");
    let select = " AS (SELECT data_file_id, "@;
    let from = "
                 FROM ducklake_file_column_stats
                 WHERE column_id = "@;
    let (and, end) = (" AND table_id = "@, ")"@);
    let stats = joined(views(filter.stats@), ", "@);
    let column = int_text(filter.column_id as int);
    let table = int_text(table_id as int);
    lemma_harmless_text(select);
    lemma_harmless_text(from);
    lemma_harmless_text(and);
    lemma_harmless_text(end);
    lemma_harmless_stats(filter);
    lemma_harmless_number(filter.column_id as int);
    lemma_harmless_number(table_id as int);
    let s1 = filter.alias@ + select;
    lemma_harmless_sum(filter.alias@, select);
    let s2 = s1 + stats;
    lemma_harmless_sum(s1, stats);
    let s3 = s2 + from;
    lemma_harmless_sum(s2, from);
    let s4 = s3 + column;
    lemma_harmless_sum(s3, column);
    let s5 = s4 + and;
    lemma_harmless_sum(s4, and);
    let s6 = s5 + table;
    lemma_harmless_sum(s5, table);
    let s7 = s6 + end;
    lemma_harmless_sum(s6, end);
}

proof fn lemma_harmless_join(filter: RenderedColumnFilter)
    requires
        is_harmless_filter(filter),
    ensures
        is_harmless(join_text(filter)),
{
    reveal_strlit("
                 LEFT JOIN ");
    reveal_strlit(" ON ");
    reveal_strlit(".data_file_id = data.data_file_id");
    let join = "
                 LEFT JOIN "@;
    let (on, end) = (" ON "@, ".data_file_id = data.data_file_id"@);
    lemma_harmless_text(join);
    lemma_harmless_text(on);
    lemma_harmless_text(end);
    let s1 = join + filter.alias@;
    lemma_harmless_sum(join, filter.alias@);
    let s2 = s1 + on;
    lemma_harmless_sum(s1, on);
    let s3 = s2 + filter.alias@;
    lemma_harmless_sum(s2, filter.alias@);
    let s4 = s3 + end;
    lemma_harmless_sum(s3, end);
}

/// Narrowing adds no parameter: the narrowed listing takes as many as the whole one,
/// since what is put in takes none.
pub proof fn lemma_narrowing_adds_no_parameter(
    capabilities: SchemaCapabilities,
    sql: StatsFilterSql,
    filters: Seq<RenderedColumnFilter>,
    table_id: i64,
)
    requires
        narrows(sql, filters, table_id),
        forall|i: int| 0 <= i < filters.len() ==> is_harmless_filter(#[trigger] filters[i]),
    ensures
        placeholders(listing_text(capabilities, sql.cte@, sql.joins@, sql.conditions@)) == placeholders(
            listing_text(capabilities, ""@, ""@, ""@),
        ),
{
    reveal_strlit("");
    lemma_harmless_text(""@);
    lemma_harmless_pieces(sql, filters, table_id);
    lemma_listing_placeholders(capabilities, sql.cte@, sql.joins@, sql.conditions@);
    lemma_listing_placeholders(capabilities, ""@, ""@, ""@);
}

proof fn lemma_listing_select_is_closed()
    ensures
        !is_open(LISTING_SELECT@),
{
    reveal_strlit("SELECT
                    data.data_file_id, data.path, data.path_is_relative,
                    data.file_size_bytes, data.footer_size, data.encryption_key,
                    data.row_id_start, data.record_count,
                    del.delete_file_id, del.path, del.path_is_relative,
                    del.file_size_bytes, del.footer_size, del.encryption_key,
                    del.delete_count, data.begin_snapshot,
                    ");
    lemma_unquoted_text(LISTING_SELECT@);
}

proof fn lemma_listing_from_is_closed()
    ensures
        !is_open(LISTING_FROM@),
{
    reveal_strlit(",
                    data.mapping_id
                 FROM ducklake_data_file AS data
                 LEFT JOIN ducklake_delete_file AS del
                   ON data.data_file_id = del.data_file_id
                  AND del.table_id = ?
                  AND ? >= del.begin_snapshot
                  AND (? < del.end_snapshot OR del.end_snapshot IS NULL)");
    lemma_unquoted_text(LISTING_FROM@);
}

proof fn lemma_listing_where_is_closed()
    ensures
        !is_open(LISTING_WHERE@),
{
    reveal_strlit("
                 WHERE data.table_id = ?
                   AND ? >= data.begin_snapshot
                   AND (? < data.end_snapshot OR data.end_snapshot IS NULL)
                   AND data.data_file_id > ?");
    lemma_unquoted_text(LISTING_WHERE@);
}

proof fn lemma_schema_version_query_is_closed()
    ensures
        !is_open(SCHEMA_VERSION_QUERY@),
{
    reveal_strlit("(SELECT sv.schema_version
                  FROM ducklake_schema_versions sv
                  WHERE sv.table_id = data.table_id
                    AND sv.begin_snapshot <= data.begin_snapshot
                  ORDER BY sv.begin_snapshot DESC
                  LIMIT 1)");
    lemma_unquoted_text(SCHEMA_VERSION_QUERY@);
}

/// A listing takes its own parameters alone, whatever harmless pieces are put in.
proof fn lemma_listing_placeholders(
    capabilities: SchemaCapabilities,
    cte: Seq<char>,
    joins: Seq<char>,
    conditions: Seq<char>,
)
    requires
        is_harmless(cte),
        is_harmless(joins),
        is_harmless(conditions),
    ensures
        placeholders(listing_text(capabilities, cte, joins, conditions)) == placeholders(LISTING_SELECT@) + placeholders(column_or_null(capabilities.data_file_partial_max, "data.partial_max"@)) + placeholders(column_or_null(capabilities.schema_versions, SCHEMA_VERSION_QUERY@)) + placeholders(column_or_null(capabilities.data_file_partition_id, "data.partition_id"@)) + placeholders(LISTING_FROM@) + placeholders(LISTING_WHERE@) + placeholders(LISTING_ORDER@),
{
    let partial_max = column_or_null(capabilities.data_file_partial_max, "data.partial_max"@);
    let schema_version = column_or_null(capabilities.schema_versions, SCHEMA_VERSION_QUERY@);
    let partition_id = column_or_null(capabilities.data_file_partition_id, "data.partition_id"@);
    reveal_strlit("data.partial_max");
    reveal_strlit("data.partition_id");
    reveal_strlit("NULL");
    reveal_strlit(", ");
    lemma_unquoted_text("data.partial_max"@);
    lemma_unquoted_text("data.partition_id"@);
    lemma_unquoted_text("NULL"@);
    lemma_harmless_text(", "@);
    lemma_listing_select_is_closed();
    lemma_listing_from_is_closed();
    lemma_listing_where_is_closed();
    lemma_schema_version_query_is_closed();
    let s1 = cte + LISTING_SELECT@;
    lemma_placeholders_sum(cte, LISTING_SELECT@);
    let s2 = s1 + partial_max;
    lemma_placeholders_sum(s1, partial_max);
    let s3 = s2 + ", "@;
    lemma_placeholders_sum(s2, ", "@);
    let s4 = s3 + schema_version;
    lemma_placeholders_sum(s3, schema_version);
    let s5 = s4 + ", "@;
    lemma_placeholders_sum(s4, ", "@);
    let s6 = s5 + partition_id;
    lemma_placeholders_sum(s5, partition_id);
    let s7 = s6 + LISTING_FROM@;
    lemma_placeholders_sum(s6, LISTING_FROM@);
    let s8 = s7 + joins;
    lemma_placeholders_sum(s7, joins);
    let s9 = s8 + LISTING_WHERE@;
    lemma_placeholders_sum(s8, LISTING_WHERE@);
    let s10 = s9 + conditions;
    lemma_placeholders_sum(s9, conditions);
    let s11 = s10 + LISTING_ORDER@;
    lemma_placeholders_sum(s10, LISTING_ORDER@);
}

/// One page of the listing of a table's files, narrowed where there is a filter.
pub fn file_listing_sql(
    capabilities: &SchemaCapabilities,
    filter_sql: &Option<StatsFilterSql>,
) -> (out: String)
    ensures
        match filter_sql {
            Some(sql) => out@ == listing_text(
                *capabilities,
                sql.cte@,
                sql.joins@,
                sql.conditions@,
            ),
            None => out@ == listing_text(*capabilities, ""@, ""@, ""@),
        },
{
    let (cte, joins, conditions): (&str, &str, &str) = match filter_sql {
        Some(sql) => (sql.cte.as_str(), sql.joins.as_str(), sql.conditions.as_str()),
        None => ("", "", ""),
    };
    let partial_max = present_or_null(capabilities.data_file_partial_max, "data.partial_max");
    let schema_version = present_or_null(capabilities.schema_versions, SCHEMA_VERSION_QUERY);
    let partition_id = present_or_null(capabilities.data_file_partition_id, "data.partition_id");
    let mut out = cte.to_string();
    out.append(LISTING_SELECT);
    out.append(partial_max);
    out.append(", ");
    out.append(schema_version);
    out.append(", ");
    out.append(partition_id);
    out.append(LISTING_FROM);
    out.append(joins);
    out.append(LISTING_WHERE);
    out.append(conditions);
    out.append(LISTING_ORDER);
    out
}

/// The restriction of a query to the files of a page.
pub open spec fn page_id_text(column: Seq<char>, files: Seq<DuckLakeTableFile>) -> Seq<char> {
    "
                   AND "@
        + column + " IN ("@ + crate::file_page::id_list_text(files) + ")"@
}

/// The restriction to `files` where there is a filter, nothing where there is
/// none: then the range of ids is enough.
pub open spec fn restriction_text(
    column: Seq<char>,
    files: Seq<DuckLakeTableFile>,
    filtered: bool,
) -> Seq<char> {
    if filtered {
        page_id_text(column, files)
    } else {
        ""@
    }
}

fn restriction_of(column: &str, files: &Vec<DuckLakeTableFile>, filtered: bool) -> (out: String)
    ensures
        out@ == restriction_text(column@, files@, filtered),
{
    if !filtered {
        return "".to_string();
    }
    let ids = id_list(files);
    let mut out = "
                   AND ".to_string();
    out.append(column);
    out.append(" IN (");
    out.append(ids.as_str());
    out.append(")");
    out
}

pub const STATISTICS_SELECT: &'static str = "SELECT stats.data_file_id, stats.column_id,
                        stats.column_size_bytes, stats.value_count, stats.null_count,
                        stats.min_value, stats.max_value, stats.contains_nan
                 FROM ducklake_file_column_stats AS stats
                 INNER JOIN ducklake_data_file AS data
                   ON data.data_file_id = stats.data_file_id
                  AND data.table_id = stats.table_id
                 WHERE stats.table_id = ?
                   AND ? >= data.begin_snapshot
                   AND (? < data.end_snapshot OR data.end_snapshot IS NULL)
                   AND stats.data_file_id > ?
                   AND stats.data_file_id <= ?";

pub const STATISTICS_ORDER: &'static str = "
                 ORDER BY stats.data_file_id, stats.column_id";

/// The statistics of the files of a page.
pub fn page_statistics_sql(files: &Vec<DuckLakeTableFile>, filtered: bool) -> (out: String)
    ensures
        out@ == STATISTICS_SELECT@ + restriction_text("stats.data_file_id"@, files@, filtered)
        + STATISTICS_ORDER@,
{
    let restriction = restriction_of("stats.data_file_id", files, filtered);
    let mut out = STATISTICS_SELECT.to_string();
    out.append(restriction.as_str());
    out.append(STATISTICS_ORDER);
    out
}

/// The partition values of the files of a page: the query `base`, restricted.
pub fn page_partition_values_sql(
    base: &str,
    files: &Vec<DuckLakeTableFile>,
    filtered: bool,
) -> (out: String)
    ensures
        out@ == base@ + restriction_text("data_file_id"@, files@, filtered),
{
    let restriction = restriction_of("data_file_id", files, filtered);
    let mut out = base.to_string();
    out.append(restriction.as_str());
    out
}

pub const SELECT_FILES: &'static str = "SELECT
                    data.data_file_id,
                    data.path AS data_file_path,
                    data.path_is_relative AS data_path_is_relative,
                    data.file_size_bytes AS data_file_size,
                    data.footer_size AS data_footer_size,
                    data.encryption_key AS data_encryption_key,
                    data.row_id_start AS data_row_id_start,
                    data.record_count AS data_record_count,
                    del.delete_file_id,
                    del.path AS delete_file_path,
                    del.path_is_relative AS delete_path_is_relative,
                    del.file_size_bytes AS delete_file_size,
                    del.footer_size AS delete_footer_size,
                    del.encryption_key AS delete_encryption_key,
                    del.delete_count,
                    data.begin_snapshot AS data_begin_snapshot,
                    ";

pub const SELECT_FILES_FROM: &'static str = " AS data_partition_id,
                    data.mapping_id AS data_mapping_id
                FROM ducklake_data_file AS data
                LEFT JOIN ducklake_delete_file AS del
                    ON data.data_file_id = del.data_file_id
                    AND del.table_id = ?
                    AND ? >= del.begin_snapshot
                    AND (? < del.end_snapshot OR del.end_snapshot IS NULL)
                WHERE data.table_id = ?
                  AND ? >= data.begin_snapshot
                  AND (? < data.end_snapshot OR data.end_snapshot IS NULL)";

/// All live files of a table.
pub fn select_files_sql(capabilities: &SchemaCapabilities) -> (out: String)
    ensures
        out@ == SELECT_FILES@
        + column_or_null(capabilities.data_file_partial_max, "data.partial_max"@)
        + " AS data_partial_max,
                    "@
        + column_or_null(capabilities.schema_versions, SCHEMA_VERSION_QUERY@)
        + " AS data_schema_version,
                    "@
        + column_or_null(capabilities.data_file_partition_id, "data.partition_id"@)
        + SELECT_FILES_FROM@,
{
    let partial_max = present_or_null(capabilities.data_file_partial_max, "data.partial_max");
    let schema_version = present_or_null(capabilities.schema_versions, SCHEMA_VERSION_QUERY);
    let partition_id = present_or_null(capabilities.data_file_partition_id, "data.partition_id");
    let mut out = SELECT_FILES.to_string();
    out.append(partial_max);
    out.append(" AS data_partial_max,
                    ");
    out.append(schema_version);
    out.append(" AS data_schema_version,
                    ");
    out.append(partition_id);
    out.append(SELECT_FILES_FROM);
    out
}

pub const ADDED_SELECT: &'static str = "SELECT
                    data.begin_snapshot,
                    data.path,
                    data.path_is_relative,
                    data.file_size_bytes,
                    data.footer_size,
                    data.encryption_key,
                    data.row_id_start,
                    ";

pub const ADDED_WHERE: &'static str = ",
                    data.mapping_id
                FROM ducklake_data_file AS data
                WHERE data.table_id = ?1
                  AND data.begin_snapshot <= ?3
                  AND (data.begin_snapshot >= ?2
                       OR (";

/// The data files added between two snapshots. A file with rows of several
/// snapshots counts by its latest row.
pub fn added_files_sql(capabilities: &SchemaCapabilities) -> (out: String)
    ensures
        out@ == ({
            let latest = column_or_null(capabilities.data_file_partial_max, "data.partial_max"@);
            ADDED_SELECT@ + latest + ADDED_WHERE@ + latest + " IS NOT NULL AND "@ + latest
        + " >= ?2))
                ORDER BY data.begin_snapshot"@
        }),
{
    let latest = present_or_null(capabilities.data_file_partial_max, "data.partial_max");
    let mut out = ADDED_SELECT.to_string();
    out.append(latest);
    out.append(ADDED_WHERE);
    out.append(latest);
    out.append(" IS NOT NULL AND ");
    out.append(latest);
    out.append(" >= ?2))
                ORDER BY data.begin_snapshot");
    out
}

pub const DELETES_SELECT: &'static str = "
-- Part 1: Incremental deletes (delete file added)
SELECT
    data.path AS data_path,
    data.path_is_relative AS data_path_is_relative,
    data.file_size_bytes AS data_file_size,
    data.footer_size AS data_footer_size,
    data.row_id_start,
    data.record_count,
    data.mapping_id,

    cd.path AS current_delete_path,
    cd.path_is_relative AS current_delete_path_is_relative,
    cd.file_size_bytes AS current_delete_file_size,
    cd.footer_size AS current_delete_footer_size,

    -- Previous delete file (correlated subquery instead of LATERAL)
    (SELECT path FROM ducklake_delete_file pd
     WHERE pd.table_id = ?
       AND pd.data_file_id = cd.data_file_id
       AND pd.begin_snapshot < cd.begin_snapshot
     ORDER BY pd.begin_snapshot DESC LIMIT 1) AS prev_delete_path,
    (SELECT path_is_relative FROM ducklake_delete_file pd
     WHERE pd.table_id = ?
       AND pd.data_file_id = cd.data_file_id
       AND pd.begin_snapshot < cd.begin_snapshot
     ORDER BY pd.begin_snapshot DESC LIMIT 1) AS prev_delete_path_is_relative,
    (SELECT file_size_bytes FROM ducklake_delete_file pd
     WHERE pd.table_id = ?
       AND pd.data_file_id = cd.data_file_id
       AND pd.begin_snapshot < cd.begin_snapshot
     ORDER BY pd.begin_snapshot DESC LIMIT 1) AS prev_delete_file_size,
    (SELECT footer_size FROM ducklake_delete_file pd
     WHERE pd.table_id = ?
       AND pd.data_file_id = cd.data_file_id
       AND pd.begin_snapshot < cd.begin_snapshot
     ORDER BY pd.begin_snapshot DESC LIMIT 1) AS prev_delete_footer_size,

    cd.begin_snapshot AS snapshot_id
FROM ducklake_delete_file cd
JOIN ducklake_data_file data ON data.data_file_id = cd.data_file_id
WHERE cd.table_id = ?
  AND cd.begin_snapshot <= ?
  AND (cd.begin_snapshot >= ?
       OR (";

pub const DELETES_FULL: &'static str = " >= ?))
  AND data.table_id = ?

UNION ALL

-- Part 2: Full file deletes (data file removed entirely)
SELECT
    data.path AS data_path,
    data.path_is_relative AS data_path_is_relative,
    data.file_size_bytes AS data_file_size,
    data.footer_size AS data_footer_size,
    data.row_id_start,
    data.record_count,
    data.mapping_id,

    NULL AS current_delete_path,
    NULL AS current_delete_path_is_relative,
    NULL AS current_delete_file_size,
    NULL AS current_delete_footer_size,

    -- Previous delete file
    (SELECT path FROM ducklake_delete_file pd
     WHERE pd.table_id = ?
       AND pd.data_file_id = data.data_file_id
       AND pd.begin_snapshot < data.end_snapshot
     ORDER BY pd.begin_snapshot DESC LIMIT 1) AS prev_delete_path,
    (SELECT path_is_relative FROM ducklake_delete_file pd
     WHERE pd.table_id = ?
       AND pd.data_file_id = data.data_file_id
       AND pd.begin_snapshot < data.end_snapshot
     ORDER BY pd.begin_snapshot DESC LIMIT 1) AS prev_delete_path_is_relative,
    (SELECT file_size_bytes FROM ducklake_delete_file pd
     WHERE pd.table_id = ?
       AND pd.data_file_id = data.data_file_id
       AND pd.begin_snapshot < data.end_snapshot
     ORDER BY pd.begin_snapshot DESC LIMIT 1) AS prev_delete_file_size,
    (SELECT footer_size FROM ducklake_delete_file pd
     WHERE pd.table_id = ?
       AND pd.data_file_id = data.data_file_id
       AND pd.begin_snapshot < data.end_snapshot
     ORDER BY pd.begin_snapshot DESC LIMIT 1) AS prev_delete_footer_size,

    data.end_snapshot AS snapshot_id
FROM ducklake_data_file data
WHERE data.table_id = ?
  AND data.end_snapshot >= ?
  AND data.end_snapshot <= ?
";

/// The deletes added between two snapshots: delete files, and data files that
/// were removed whole.
pub fn added_deletes_sql(capabilities: &SchemaCapabilities) -> (out: String)
    ensures
        out@ == ({
            let latest = column_or_null(capabilities.delete_file_partial_max, "cd.partial_max"@);
            DELETES_SELECT@ + latest + " IS NOT NULL AND "@ + latest + DELETES_FULL@
        }),
{
    let latest = present_or_null(capabilities.delete_file_partial_max, "cd.partial_max");
    let mut out = DELETES_SELECT.to_string();
    out.append(latest);
    out.append(" IS NOT NULL AND ");
    out.append(latest);
    out.append(DELETES_FULL);
    out
}

// ---------------------------------------------------------------------------
// Inlined rows
// ---------------------------------------------------------------------------

/// The query for the columns of `table`, which is named in it as a string.
pub fn table_info_sql(table: &str) -> (out: String)
    ensures
        out@ == "SELECT name FROM pragma_table_info("@ + quoted(table@, '\'') + ")"@,
{
    let name = quote_with(table, '\'');
    let mut out = "SELECT name FROM pragma_table_info(".to_string();
    out.append(name.as_str());
    out.append(")");
    out
}

pub const INLINED_WHERE: &'static str = " WHERE ? >= begin_snapshot AND (? < end_snapshot OR end_snapshot IS NULL) ORDER BY row_id";

/// The inlined rows of `table` that a snapshot shows. Only the columns that the
/// table has are asked for; a table without any of them still counts its rows.
pub fn inlined_data_sql(table: &str, columns: &Vec<String>, present: &Vec<String>) -> (out: String)
    ensures
        out@ == ({
            let projected = present_columns(views(columns@), views(present@), '"');
            let select_list = if projected.len() == 0 {
                "1"@
            } else {
                joined(projected, ", "@)
            };
            "SELECT "@ + select_list + " FROM "@ + quoted(table@, '"') + INLINED_WHERE@
        }),
{
    let projected = quote_present(columns, present, '"');
    let select_list = if projected.len() == 0 {
        "1".to_string()
    } else {
        join(&projected, ", ")
    };
    let name = quote_ident(table);
    let mut out = "SELECT ".to_string();
    out.append(select_list.as_str());
    out.append(" FROM ");
    out.append(name.as_str());
    out.append(INLINED_WHERE);
    out
}

pub const INLINED_ROWS_WHERE: &'static str = " WHERE ? >= begin_snapshot AND (? < end_snapshot OR end_snapshot IS NULL) ORDER BY begin_snapshot, row_id";

/// The inlined rows of `table` that a snapshot shows, with their row ids and the
/// snapshots that added them.
pub fn inlined_rows_sql(table: &str, columns: &Vec<String>, present: &Vec<String>) -> (out: String)
    ensures
        out@ == ({
            let projected = present_columns(views(columns@), views(present@), '"');
            let select_list = if projected.len() == 0 {
                "row_id, begin_snapshot"@
            } else {
                "row_id, begin_snapshot, "@ + joined(projected, ", "@)
            };
            "SELECT "@ + select_list + " FROM "@ + quoted(table@, '"') + INLINED_ROWS_WHERE@
        }),
{
    let projected = quote_present(columns, present, '"');
    let select_list = if projected.len() == 0 {
        "row_id, begin_snapshot".to_string()
    } else {
        let list = join(&projected, ", ");
        let mut out = "row_id, begin_snapshot, ".to_string();
        out.append(list.as_str());
        out
    };
    let name = quote_ident(table);
    let mut out = "SELECT ".to_string();
    out.append(select_list.as_str());
    out.append(" FROM ");
    out.append(name.as_str());
    out.append(INLINED_ROWS_WHERE);
    out
}

/// The inlined deletes that a snapshot shows, kept in `table`.
pub fn inlined_deletes_sql(table: &str) -> (out: String)
    ensures
        out@ == "SELECT file_id, row_id FROM "@ + quoted(table@, '"')
        + " WHERE begin_snapshot <= ? ORDER BY file_id, row_id"@,
{
    let name = quote_ident(table);
    let mut out = "SELECT file_id, row_id FROM ".to_string();
    out.append(name.as_str());
    out.append(" WHERE begin_snapshot <= ? ORDER BY file_id, row_id");
    out
}

/// A catalog that lacks a part is probed again, whichever part it is, and one that has
/// them all is not.
pub proof fn lemma_missing_part(capabilities: SchemaCapabilities)
    ensures
        !capabilities.has_all() <==> !capabilities.data_file_partial_max || !capabilities.delete_file_partial_max
            || !capabilities.data_file_partition_id
            || !capabilities.schema_versions
            || !capabilities.inlined_data_tables
            || !capabilities.views,
{
}

} // verus!
