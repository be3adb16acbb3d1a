//! A catalog kept in DuckDB: its SQL dialect and its older spellings.

use vstd::prelude::*;
use crate::capabilities::Capabilities;
use crate::file_page::id_list;
use crate::inlined::contains_name;
use crate::metadata::{DataFileChange, DuckLakeTableFile, RenderedColumnFilter};
use crate::order::opt_view;
use crate::parameters::{
    is_harmless, is_harmless_filter, is_open, lemma_harmless_joined, lemma_harmless_number,
    lemma_harmless_stats, lemma_harmless_sum, lemma_harmless_text, lemma_placeholders_sum,
    lemma_unquoted_text, placeholders,
};
use crate::scan::{
    ascii_lowered, before_first, behind_last, contains_text, cut_at_first, first_segment, has_shape,
    i64_value, is_digit, is_digits, is_space, last_segment, lemma_cut_is_whole, lower_ascii,
    matches_shape, parse_i64, replace_text, replaced, split_once, text_contains, text_ends_with,
    trim, trim_end, trimmed, trimmed_end,
};
use crate::text::{
    chars_of, int_text, join, joined, push_i64, quote_with, quoted, string_of, views,
};
use crate::types::{opt_str, DataType, TimeUnit};

verus! {

/// Whether a query failed because the catalog does not have the table it reads.
pub fn is_missing_statistics_table(message: &str) -> (missing: bool)
    ensures
        missing == (contains_text(ascii_lowered(message@), "does not exist"@) || contains_text(
            ascii_lowered(message@),
            "not found"@,
        )),
{
    let lowered = lower_ascii(message);
    text_contains(lowered.as_str(), "does not exist") || text_contains(
        lowered.as_str(),
        "not found",
    )
}

/// `name` as an identifier, whatever it holds.
pub fn quote_ident(name: &str) -> (out: String)
    ensures
        out@ == quoted(name@, '"'),
{
    quote_with(name, '"')
}

// ---------------------------------------------------------------------------
// Comparing statistics with a constant
// ---------------------------------------------------------------------------

/// `YYYY-MM-DD`.
pub open spec fn is_date_constant(text: Seq<char>) -> bool {
    has_shape(text, "NNNN-NN-NN"@)
}

/// `YYYY-MM-DD HH:MM:SS`, with or without a `.` and digits behind it.
pub open spec fn is_timestamp_constant(text: Seq<char>) -> bool {
    &&& text.len() >= 19
    &&& has_shape(text.take(19), "NNNN-NN-NN NN:NN:NN"@)
    &&& text.len() == 19 || (text[19] == '.' && is_digits(text.skip(20)))
}

/// A timestamp followed by `+00`.
pub open spec fn is_timestamptz_constant(text: Seq<char>) -> bool {
    &&& "+00"@.is_suffix_of(text)
    &&& is_timestamp_constant(text.take(text.len() - 3))
}

/// Whether `text` is `YYYY-MM-DD` with a four-digit year.
pub fn is_canonical_date(text: &str) -> (canonical: bool)
    ensures
        canonical == is_date_constant(text@),
{
    matches_shape(text, "NNNN-NN-NN")
}

/// Whether `text` is `YYYY-MM-DD HH:MM:SS` with an optional fraction, all of it
/// digits.
pub fn is_canonical_timestamp(text: &str) -> (canonical: bool)
    ensures
        canonical == is_timestamp_constant(text@),
{
    let chars = chars_of(text);
    if chars.len() < 19 {
        return false;
    }
    let base = string_of(&chars, 0, 19);
    assert(base@ =~= text@.take(19));
    if !matches_shape(base.as_str(), "NNNN-NN-NN NN:NN:NN") {
        return false;
    }
    if chars.len() == 19 {
        return true;
    }
    if chars[19] != '.' || chars.len() == 20 {
        return false;
    }
    let ghost digits = text@.skip(20);
    let mut i: usize = 20;
    while i < chars.len()
        invariant
            20 <= i <= chars@.len(),
            chars@ == text@,
            digits == text@.skip(20),
            forall|k: int| 0 <= k < i - 20 ==> is_digit(#[trigger] digits[k]),
        decreases chars@.len() - i,
    {
        let c: char = chars[i];
        assert(digits[i - 20] == c);
        if !('0' <= c && c <= '9') {
            return false;
        }
        i = i + 1;
    }
    true
}

/// Whether `text` is a canonical timestamp that carries the suffix `+00`.
pub fn is_canonical_timestamptz(text: &str) -> (canonical: bool)
    ensures
        canonical == is_timestamptz_constant(text@),
{
    proof {
        reveal_strlit("+00");
    }
    if !text_ends_with(text, "+00") {
        return false;
    }
    let chars = chars_of(text);
    let body = string_of(&chars, 0, chars.len() - 3);
    assert(body@ =~= text@.take(text@.len() - 3));
    is_canonical_timestamp(body.as_str())
}

/// Whether DuckDB reads the constant `text` as a value of the type. Only quoted
/// constants of the temporal types can fail to be read.
pub open spec fn reads_constant(text: Seq<char>, data_type: DataType) -> bool {
    match data_type {
        DataType::Date32 | DataType::Date64 => is_date_constant(text),
        DataType::Timestamp(_, None) => is_timestamp_constant(text),
        DataType::Timestamp(_, Some(_)) => is_timestamptz_constant(text),
        _ => true,
    }
}

/// Whether DuckDB reads the constant `text` as a value of `data_type` instead of
/// raising an error.
pub fn duckdb_reads_constant(text: &str, data_type: &DataType) -> (reads: bool)
    ensures
        reads == reads_constant(text@, *data_type),
{
    match data_type {
        DataType::Date32 | DataType::Date64 => is_canonical_date(text),
        DataType::Timestamp(_, None) => is_canonical_timestamp(text),
        DataType::Timestamp(_, Some(_)) => is_canonical_timestamptz(text),
        _ => true,
    }
}

/// The pattern of the texts that are written for a type.
pub open spec fn castable_pattern(data_type: DataType) -> Option<Seq<char>> {
    match data_type {
        DataType::Boolean => Some("^(true|false)$"@),
        DataType::Decimal128(_, _) => Some("^-?[0-9]{1,38}(\\.[0-9]{1,38})?$"@),
        DataType::Float16 | DataType::Float32 | DataType::Float64 => Some(
            "^-?(inf|[0-9]+(\\.[0-9]+)?(e[-+][0-9]{1,3})?)$"@,
        ),
        DataType::Date32 | DataType::Date64 => Some("^[0-9]{4}-[0-9]{2}-[0-9]{2}$"@),
        DataType::Timestamp(_, None) => Some(
            "^[0-9]{4}-[0-9]{2}-[0-9]{2} [0-9]{2}:[0-9]{2}:[0-9]{2}(\\.[0-9]{1,9})?$"@,
        ),
        DataType::Timestamp(_, Some(_)) => Some(
            "^[0-9]{4}-[0-9]{2}-[0-9]{2} [0-9]{2}:[0-9]{2}:[0-9]{2}(\\.[0-9]{1,9})?\\+00$"@,
        ),
        _ => if data_type.is_integer_type() {
            Some("^-?[0-9]{1,20}$"@)
        } else {
            None
        },
    }
}

/// A pattern that admits only the texts that are written for `data_type`.
///
/// A cast alone would read more than that: `nan`, `epoch` or `0x10` become
/// values, and files would be pruned by them.
pub fn duckdb_castable_pattern(data_type: &DataType) -> (pattern: Option<&'static str>)
    ensures
        opt_str(pattern) == castable_pattern(*data_type),
{
    match data_type {
        DataType::Boolean => Some("^(true|false)$"),
        DataType::Decimal128(_, _) => Some("^-?[0-9]{1,38}(\\.[0-9]{1,38})?$"),
        DataType::Float16 | DataType::Float32 | DataType::Float64 => {
            Some("^-?(inf|[0-9]+(\\.[0-9]+)?(e[-+][0-9]{1,3})?)$")
        },
        DataType::Date32 | DataType::Date64 => Some("^[0-9]{4}-[0-9]{2}-[0-9]{2}$"),
        DataType::Timestamp(_, None) => {
            Some("^[0-9]{4}-[0-9]{2}-[0-9]{2} [0-9]{2}:[0-9]{2}:[0-9]{2}(\\.[0-9]{1,9})?$")
        },
        DataType::Timestamp(_, Some(_)) => {
            Some("^[0-9]{4}-[0-9]{2}-[0-9]{2} [0-9]{2}:[0-9]{2}:[0-9]{2}(\\.[0-9]{1,9})?\\+00$")
        },
        _ => if data_type.is_integer() {
            Some("^-?[0-9]{1,20}$")
        } else {
            None
        },
    }
}

/// The DuckDB type that holds the values of a type exactly.
pub open spec fn cast_type(data_type: DataType) -> Option<Seq<char>> {
    match data_type {
        DataType::Boolean => Some("BOOLEAN"@),
        DataType::Int8 => Some("TINYINT"@),
        DataType::Int16 => Some("SMALLINT"@),
        DataType::Int32 => Some("INTEGER"@),
        DataType::Int64 => Some("BIGINT"@),
        DataType::UInt8 => Some("UTINYINT"@),
        DataType::UInt16 => Some("USMALLINT"@),
        DataType::UInt32 => Some("UINTEGER"@),
        DataType::UInt64 => Some("UBIGINT"@),
        DataType::Float32 => Some("FLOAT"@),
        DataType::Float64 => Some("DOUBLE"@),
        DataType::Date32 | DataType::Date64 => Some("DATE"@),
        DataType::Timestamp(TimeUnit::Second, None) => Some("TIMESTAMP_S"@),
        DataType::Timestamp(TimeUnit::Millisecond, None) => Some("TIMESTAMP_MS"@),
        DataType::Timestamp(TimeUnit::Microsecond, None) => Some("TIMESTAMP"@),
        DataType::Timestamp(TimeUnit::Nanosecond, None) => Some("TIMESTAMP_NS"@),
        DataType::Timestamp(TimeUnit::Nanosecond, Some(_)) => None,
        DataType::Timestamp(_, Some(_)) => Some("TIMESTAMPTZ"@),
        DataType::Decimal128(precision, scale) => if precision <= 38 && 0 <= scale <= precision {
            Some(
                "DECIMAL("@ + int_text(precision as int) + ", "@ + int_text(scale as int) + ")"@,
            )
        } else {
            None
        },
        _ => None,
    }
}

/// The DuckDB type a statistic is cast to for comparison with a constant of
/// `data_type`, or `None` where no type holds its values exactly: for half
/// precision, for nanoseconds with a time zone, and for a fixed-point type that
/// DuckDB does not have.
pub fn duckdb_cast_type(data_type: &DataType) -> (name: Option<String>)
    ensures
        opt_view(name) == cast_type(*data_type),
{
    let name: &'static str = match data_type {
        DataType::Boolean => "BOOLEAN",
        DataType::Int8 => "TINYINT",
        DataType::Int16 => "SMALLINT",
        DataType::Int32 => "INTEGER",
        DataType::Int64 => "BIGINT",
        DataType::UInt8 => "UTINYINT",
        DataType::UInt16 => "USMALLINT",
        DataType::UInt32 => "UINTEGER",
        DataType::UInt64 => "UBIGINT",
        DataType::Float32 => "FLOAT",
        DataType::Float64 => "DOUBLE",
        DataType::Date32 | DataType::Date64 => "DATE",
        DataType::Timestamp(TimeUnit::Second, None) => "TIMESTAMP_S",
        DataType::Timestamp(TimeUnit::Millisecond, None) => "TIMESTAMP_MS",
        DataType::Timestamp(TimeUnit::Microsecond, None) => "TIMESTAMP",
        DataType::Timestamp(TimeUnit::Nanosecond, None) => "TIMESTAMP_NS",
        DataType::Timestamp(TimeUnit::Nanosecond, Some(_)) => {
            return None;
        },
        DataType::Timestamp(_, Some(_)) => "TIMESTAMPTZ",
        DataType::Decimal128(precision, scale) => {
            if *precision <= 38 && *scale >= 0 && *scale as u8 <= *precision {
                let mut name = "DECIMAL(".to_string();
                push_i64(&mut name, *precision as i64);
                name.append(", ");
                push_i64(&mut name, *scale as i64);
                name.append(")");
                return Some(name);
            }
            return None;
        },
        _ => {
            return None;
        },
    };
    Some(name.to_string())
}

/// DuckDB's spelling of the comparisons with statistics.
pub struct DuckdbStatsDialect;

/// The value of a statistic for comparison with a constant: cast where its text
/// is one that is written for the type, `NULL` elsewhere.
pub open spec fn duckdb_cast_text(
    expr: Seq<char>,
    constant: Seq<char>,
    data_type: DataType,
) -> Option<Seq<char>> {
    if !reads_constant(constant, data_type) {
        None
    } else {
        match (cast_type(data_type), castable_pattern(data_type)) {
            (Some(target), Some(pattern)) => Some(
                "CASE WHEN regexp_full_match("@ + expr + ", '"@ + pattern + "') THEN TRY_CAST("@
                    + expr + " AS "@ + target + ") END"@,
            ),
            _ => None,
        }
    }
}

impl DuckdbStatsDialect {
    /// The statistic `expr` as a value to compare `constant` with, or `None`
    /// where the comparison is not to be made.
    pub fn try_cast(&self, expr: &str, constant: &str, data_type: &DataType) -> (out: Option<
        String,
    >)
        ensures
            opt_view(out) == duckdb_cast_text(expr@, constant@, *data_type),
    {
        if !duckdb_reads_constant(constant, data_type) {
            return None;
        }
        match (duckdb_cast_type(data_type), duckdb_castable_pattern(data_type)) {
            (Some(target), Some(pattern)) => {
                let mut out = "CASE WHEN regexp_full_match(".to_string();
                out.append(expr);
                out.append(", '");
                out.append(pattern);
                out.append("') THEN TRY_CAST(");
                out.append(expr);
                out.append(" AS ");
                out.append(target.as_str());
                out.append(") END");
                Some(out)
            },
            _ => None,
        }
    }

    /// `expr` for a comparison byte by byte, which is how DuckDB compares text.
    pub fn collate_binary(&self, expr: &str) -> (out: String)
        ensures
            out@ == expr@,
    {
        expr.to_string()
    }

    /// The condition that `expr` is unknown or not false.
    pub fn boolean_is_not_false(&self, expr: &str) -> (out: String)
        ensures
            out@ == expr@ + " IS NULL OR "@ + expr@ + " <> false"@,
    {
        let mut out = expr.to_string();
        out.append(" IS NULL OR ");
        out.append(expr);
        out.append(" <> false");
        out
    }
}

// ---------------------------------------------------------------------------
// The listing of data files
// ---------------------------------------------------------------------------

/// The condition that opens the listing's own predicate. Joins go in front of
/// it.
pub const DATA_FILES_WHERE: &'static str = "WHERE data.table_id = ?";

/// The common table expression that selects the statistics of one column.
pub open spec fn cte_text(filter: RenderedColumnFilter, table_id: i64) -> Seq<char> {
    filter.alias@ + " AS (
        SELECT data_file_id, "@ + joined(views(filter.stats@), ", "@) + "
        FROM ducklake_file_column_stats
        WHERE column_id = "@ + int_text(filter.column_id as int) + " AND table_id = "@ + int_text(
        table_id as int,
    ) + "
    )"@
}

/// The join that brings the statistics of one column in.
pub open spec fn join_text(filter: RenderedColumnFilter) -> Seq<char> {
    "\n    LEFT JOIN "@ + filter.alias@ + " ON "@ + filter.alias@
        + ".data_file_id = data.data_file_id"@
}

/// The listing `base`, narrowed by `filters`.
pub open spec fn narrowed_listing(
    base: Seq<char>,
    table_id: i64,
    filters: Seq<RenderedColumnFilter>,
) -> Option<Seq<char>> {
    match cut_at_first(base, DATA_FILES_WHERE@) {
        Some((from_section, where_section)) if filters.len() > 0 => Some(
            "WITH "@ + joined(
                filters.map_values(|filter: RenderedColumnFilter| cte_text(filter, table_id)),
                ",\n    "@,
            ) + trimmed_end(from_section) + joined(
                filters.map_values(|filter: RenderedColumnFilter| join_text(filter)),
                Seq::empty(),
            ) + "\n    "@ + DATA_FILES_WHERE@ + where_section + "\n      AND "@ + joined(
                filters.map_values(|filter: RenderedColumnFilter| filter.condition@),
                "\n      AND "@,
            ),
        ),
        _ => None,
    }
}

fn cte_of(filter: &RenderedColumnFilter, table_id: i64) -> (out: String)
    ensures
        out@ == cte_text(*filter, table_id),
{
    let stats = join(&filter.stats, ", ");
    let mut out = filter.alias.clone();
    out.append(" AS (
        SELECT data_file_id, ");
    out.append(stats.as_str());
    out.append("
        FROM ducklake_file_column_stats
        WHERE column_id = ");
    push_i64(&mut out, filter.column_id);
    out.append(" AND table_id = ");
    push_i64(&mut out, table_id);
    out.append("
    )");
    out
}

fn join_of(filter: &RenderedColumnFilter) -> (out: String)
    ensures
        out@ == join_text(*filter),
{
    let mut out = "\n    LEFT JOIN ".to_string();
    out.append(filter.alias.as_str());
    out.append(" ON ");
    out.append(filter.alias.as_str());
    out.append(".data_file_id = data.data_file_id");
    out
}

/// The listing `base` narrowed by the statistics of `filters`, or `None` when
/// there is nothing to narrow it by or no place to narrow it at.
///
/// Nothing is bound: all values stand in the text, so the parameters of the
/// narrowed listing are those of `base`.
pub fn data_files_sql_filtered(
    base: &str,
    table_id: i64,
    filters: &Vec<RenderedColumnFilter>,
) -> (out: Option<String>)
    ensures
        opt_view(out) == narrowed_listing(base@, table_id, filters@),
{
    if filters.len() == 0 {
        return None;
    }
    match split_once(base, DATA_FILES_WHERE) {
        None => None,
        Some((from_section, where_section)) => {
            let mut ctes: Vec<String> = Vec::new();
            let mut joins: Vec<String> = Vec::new();
            let mut conditions: Vec<String> = Vec::new();
            let mut i: usize = 0;
            while i < filters.len()
                invariant
                    i <= filters@.len(),
                    ctes@.len() == i,
                    joins@.len() == i,
                    conditions@.len() == i,
                    forall|k: int|
                        0 <= k < i ==> (#[trigger] ctes@[k])@ == cte_text(filters@[k], table_id),
                    forall|k: int| 0 <= k < i ==> (#[trigger] joins@[k])@ == join_text(filters@[k]),
                    forall|k: int|
                        0 <= k < i ==> (#[trigger] conditions@[k])@ == filters@[k].condition@,
                decreases filters@.len() - i,
            {
                ctes.push(cte_of(&filters[i], table_id));
                joins.push(join_of(&filters[i]));
                conditions.push(filters[i].condition.clone());
                i = i + 1;
            }
            proof {
                assert(views(ctes@) =~= filters@.map_values(
                    |filter: RenderedColumnFilter| cte_text(filter, table_id),
                ));
                assert(views(joins@) =~= filters@.map_values(
                    |filter: RenderedColumnFilter| join_text(filter),
                ));
                assert(views(conditions@) =~= filters@.map_values(
                    |filter: RenderedColumnFilter| filter.condition@,
                ));
                reveal_strlit("");
                assert(""@ =~= Seq::<char>::empty());
            }
            let ctes_text = join(&ctes, ",\n    ");
            let from_text = trim_end(from_section.as_str());
            let joins_text = join(&joins, "");
            let conditions_text = join(&conditions, "\n      AND ");
            let mut out = "WITH ".to_string();
            out.append(ctes_text.as_str());
            out.append(from_text.as_str());
            out.append(joins_text.as_str());
            out.append("\n    ");
            out.append(DATA_FILES_WHERE);
            out.append(where_section.as_str());
            out.append("\n      AND ");
            out.append(conditions_text.as_str());
            Some(out)
        },
    }
}

/// Narrowing adds no parameter: the narrowed listing takes as many as the whole one,
/// since what is put in takes none. The whole listing leaves no literal open, neither
/// where it is cut nor at its end.
pub proof fn lemma_narrowing_adds_no_parameter(
    base: Seq<char>,
    table_id: i64,
    filters: Seq<RenderedColumnFilter>,
)
    requires
        narrowed_listing(base, table_id, filters) is Some,
        cut_at_first(base, DATA_FILES_WHERE@) matches Some((from_section, _)) && !is_open(
            from_section,
        ),
        !is_open(base),
        forall|i: int| 0 <= i < filters.len() ==> is_harmless_filter(#[trigger] filters[i]),
    ensures
        placeholders(narrowed_listing(base, table_id, filters)->0) == placeholders(base),
{
    let cut = cut_at_first(base, DATA_FILES_WHERE@);
    let (from_section, where_section) = cut->0;
    let ctes = filters.map_values(|filter: RenderedColumnFilter| cte_text(filter, table_id));
    let joins = filters.map_values(|filter: RenderedColumnFilter| join_text(filter));
    let conditions = filters.map_values(|filter: RenderedColumnFilter| filter.condition@);
    assert forall|i: int| 0 <= i < ctes.len() implies is_harmless(#[trigger] ctes[i]) by {
        lemma_harmless_cte(filters[i], table_id);
    }
    assert forall|i: int| 0 <= i < joins.len() implies is_harmless(#[trigger] joins[i]) by {
        lemma_harmless_join(filters[i]);
    }
    assert forall|i: int| 0 <= i < conditions.len() implies is_harmless(
        #[trigger] conditions[i],
    ) by {
        assert(is_harmless_filter(filters[i]));
    }
    reveal_strlit("WITH ");
    reveal_strlit(",\n    ");
    reveal_strlit("\n    ");
    reveal_strlit("\n      AND ");
    reveal_strlit("WHERE data.table_id = ?");
    let (with, line, and) = ("WITH "@, "\n    "@, "\n      AND "@);
    lemma_harmless_text(with);
    lemma_harmless_text(",\n    "@);
    lemma_harmless_text(line);
    lemma_harmless_text(and);
    lemma_harmless_text(Seq::empty());
    lemma_harmless_joined(ctes, ",\n    "@);
    lemma_harmless_joined(joins, Seq::empty());
    lemma_harmless_joined(conditions, and);
    let cte_part = joined(ctes, ",\n    "@);
    let join_part = joined(joins, Seq::empty());
    let condition_part = joined(conditions, and);
    let start = trimmed_end(from_section);
    lemma_trimmed_placeholders(from_section);
    let mark = DATA_FILES_WHERE@;
    lemma_unquoted_text(mark);
    lemma_cut_is_whole(base, mark);
    lemma_placeholders_sum(from_section, mark);
    lemma_placeholders_sum(from_section + mark, where_section);
    let s1 = with + cte_part;
    lemma_placeholders_sum(with, cte_part);
    let s2 = s1 + start;
    lemma_placeholders_sum(s1, start);
    let s3 = s2 + join_part;
    lemma_placeholders_sum(s2, join_part);
    let s4 = s3 + line;
    lemma_placeholders_sum(s3, line);
    let s5 = s4 + mark;
    lemma_placeholders_sum(s4, mark);
    let s6 = s5 + where_section;
    lemma_placeholders_sum(s5, where_section);
    let s7 = s6 + and;
    lemma_placeholders_sum(s6, and);
    let s8 = s7 + condition_part;
    lemma_placeholders_sum(s7, condition_part);
}

proof fn lemma_harmless_cte(filter: RenderedColumnFilter, table_id: i64)
    requires
        is_harmless_filter(filter),
    ensures
        is_harmless(cte_text(filter, table_id)),
{
    reveal_strlit(" AS (
        SELECT data_file_id, ");
    reveal_strlit("
        FROM ducklake_file_column_stats
        WHERE column_id = ");
    reveal_strlit(" AND table_id = ");
    reveal_strlit("
    )");
    let select = " AS (
        SELECT data_file_id, "@;
    let from = "
        FROM ducklake_file_column_stats
        WHERE column_id = "@;
    let and = " AND table_id = "@;
    let end = "
    )"@;
    let stats = joined(views(filter.stats@), ", "@);
    let column = int_text(filter.column_id as int);
    let table = int_text(table_id as int);
    lemma_harmless_text(select);
    lemma_harmless_text(from);
    lemma_harmless_text(and);
    lemma_harmless_text(end);
    lemma_harmless_stats(filter);
    lemma_harmless_number(filter.column_id as int);
    lemma_harmless_number(table_id as int);
    let s1 = filter.alias@ + select;
    lemma_harmless_sum(filter.alias@, select);
    let s2 = s1 + stats;
    lemma_harmless_sum(s1, stats);
    let s3 = s2 + from;
    lemma_harmless_sum(s2, from);
    let s4 = s3 + column;
    lemma_harmless_sum(s3, column);
    let s5 = s4 + and;
    lemma_harmless_sum(s4, and);
    let s6 = s5 + table;
    lemma_harmless_sum(s5, table);
    let s7 = s6 + end;
    lemma_harmless_sum(s6, end);
}

proof fn lemma_harmless_join(filter: RenderedColumnFilter)
    requires
        is_harmless_filter(filter),
    ensures
        is_harmless(join_text(filter)),
{
    reveal_strlit("\n    LEFT JOIN ");
    reveal_strlit(" ON ");
    reveal_strlit(".data_file_id = data.data_file_id");
    let (join, on, end) = ("\n    LEFT JOIN "@, " ON "@, ".data_file_id = data.data_file_id"@);
    lemma_harmless_text(join);
    lemma_harmless_text(on);
    lemma_harmless_text(end);
    let s1 = join + filter.alias@;
    lemma_harmless_sum(join, filter.alias@);
    let s2 = s1 + on;
    lemma_harmless_sum(s1, on);
    let s3 = s2 + filter.alias@;
    lemma_harmless_sum(s2, filter.alias@);
    let s4 = s3 + end;
    lemma_harmless_sum(s3, end);
}

/// Trimming takes no parameter away.
proof fn lemma_trimmed_placeholders(text: Seq<char>)
    ensures
        placeholders(trimmed_end(text)) == placeholders(text),
        is_open(trimmed_end(text)) == is_open(text),
    decreases text.len(),
{
    if text.len() > 0 && is_space(text.last()) {
        lemma_trimmed_placeholders(text.drop_last());
    }
}

/// The end of a page query: the files behind a given one, in the order of their
/// ids, up to a limit.
pub const PAGE_ORDER: &'static str = "
             AND data.data_file_id > ?
             ORDER BY data.data_file_id
             LIMIT ?";

/// One page of the listing `base`, narrowed by `filters` where that is possible.
pub fn file_page_sql(base: &str, table_id: i64, filters: &Vec<RenderedColumnFilter>) -> (out: String)
    ensures
        out@ == (match narrowed_listing(base@, table_id, filters@) {
            Some(narrowed) => narrowed,
            None => base@,
        }) + PAGE_ORDER@,
{
    let mut out = match data_files_sql_filtered(base, table_id, filters) {
        Some(narrowed) => narrowed,
        None => base.to_string(),
    };
    out.append(PAGE_ORDER);
    out
}

/// The restriction of a query to the files of a page.
pub open spec fn page_id_text(column: Seq<char>, files: Seq<DuckLakeTableFile>) -> Seq<char> {
    "
               AND "@
        + column + " IN ("@ + crate::file_page::id_list_text(files) + ")"@
}

/// The restriction to `files` where there is a filter, nothing where there is
/// none: then the range of ids is enough.
pub open spec fn restriction_text(
    column: Seq<char>,
    files: Seq<DuckLakeTableFile>,
    filtered: bool,
) -> Seq<char> {
    if filtered {
        page_id_text(column, files)
    } else {
        ""@
    }
}

fn restriction_of(column: &str, files: &Vec<DuckLakeTableFile>, filtered: bool) -> (out: String)
    ensures
        out@ == restriction_text(column@, files@, filtered),
{
    if !filtered {
        return "".to_string();
    }
    let ids = id_list(files);
    let mut out = "
               AND ".to_string();
    out.append(column);
    out.append(" IN (");
    out.append(ids.as_str());
    out.append(")");
    out
}

pub const STATISTICS_SELECT: &'static str = "SELECT stats.data_file_id, stats.column_id,
                    stats.column_size_bytes, stats.value_count, stats.null_count,
                    stats.min_value, stats.max_value, stats.contains_nan
             FROM ducklake_file_column_stats AS stats
             INNER JOIN ducklake_data_file AS data
               ON data.data_file_id = stats.data_file_id
              AND data.table_id = stats.table_id
             WHERE stats.table_id = ?
               AND ? >= data.begin_snapshot
               AND (? < data.end_snapshot OR data.end_snapshot IS NULL)
               AND stats.data_file_id > ?
               AND stats.data_file_id <= ?";

/// The statistics of the files of a page.
pub fn page_statistics_sql(files: &Vec<DuckLakeTableFile>, filtered: bool) -> (out: String)
    ensures
        out@ == STATISTICS_SELECT@ + restriction_text("stats.data_file_id"@, files@, filtered) + "
             ORDER BY stats.data_file_id, stats.column_id"@,
{
    let restriction = restriction_of("stats.data_file_id", files, filtered);
    let mut out = STATISTICS_SELECT.to_string();
    out.append(restriction.as_str());
    out.append("
             ORDER BY stats.data_file_id, stats.column_id");
    out
}

/// The partition values of the files of a page: the query `base`, restricted.
pub fn page_partition_values_sql(
    base: &str,
    files: &Vec<DuckLakeTableFile>,
    filtered: bool,
) -> (out: String)
    ensures
        out@ == base@ + restriction_text("data_file_id"@, files@, filtered),
{
    let restriction = restriction_of("data_file_id", files, filtered);
    let mut out = base.to_string();
    out.append(restriction.as_str());
    out
}

// ---------------------------------------------------------------------------
// Optional parts of the catalog
// ---------------------------------------------------------------------------

/// Which optional parts a catalog in DuckDB has.
#[derive(Debug, Clone, Copy, PartialEq, Eq)]
pub struct SchemaCapabilities {
    /// Data files record the highest origin of their rows.
    pub data_file_partial_max: bool,
    /// Delete files record the highest snapshot of their deletes.
    pub delete_file_partial_max: bool,
    /// Tables with inlined rows are registered.
    pub inlined_data_tables: bool,
    /// There can be views.
    pub views: bool,
    /// Columns record the value that older rows have.
    pub column_initial_default: bool,
    /// Columns record the value that new rows get.
    pub column_default_value: bool,
    /// Columns record what kind of value that is.
    pub column_default_value_type: bool,
    /// Columns record the dialect it is written in.
    pub column_default_value_dialect: bool,
}

impl Capabilities for SchemaCapabilities {
    open spec fn has_all(self) -> bool {
        &&& self.data_file_partial_max
        &&& self.delete_file_partial_max
        &&& self.inlined_data_tables
        &&& self.views
        &&& self.column_initial_default
        &&& self.column_default_value
        &&& self.column_default_value_type
        &&& self.column_default_value_dialect
    }

    fn all(&self) -> (all: bool) {
        self.data_file_partial_max && self.delete_file_partial_max && self.inlined_data_tables
            && self.views && self.column_initial_default && self.column_default_value
            && self.column_default_value_type && self.column_default_value_dialect
    }
}

/// A column where the catalog has it, a `NULL` of that name where it does not.
pub open spec fn default_column(present: bool, column: Seq<char>, missing: Seq<char>) -> Seq<char> {
    if present {
        column
    } else {
        missing
    }
}

fn present_or(present: bool, column: &'static str, missing: &'static str) -> (out: &'static str)
    ensures
        out@ == default_column(present, column@, missing@),
{
    if present {
        column
    } else {
        missing
    }
}

pub const COLUMNS_SELECT: &'static str = "SELECT column_id, column_name, column_type, nulls_allowed, parent_column,
                ";

pub const COLUMNS_FROM: &'static str = "
         FROM ducklake_column
         WHERE table_id = ?
           AND ? >= begin_snapshot
           AND (? < end_snapshot OR end_snapshot IS NULL)
         ORDER BY column_order";

/// The columns of a table.
pub fn get_table_columns_sql(capabilities: SchemaCapabilities) -> (out: String)
    ensures
        out@ == COLUMNS_SELECT@
        + default_column(capabilities.column_initial_default, "initial_default"@, "NULL AS initial_default"@)
        + ", "@
        + default_column(capabilities.column_default_value, "default_value"@, "NULL AS default_value"@)
        + ", "@
        + default_column(capabilities.column_default_value_type, "default_value_type"@, "NULL AS default_value_type"@)
        + ", "@
        + default_column(capabilities.column_default_value_dialect, "default_value_dialect"@, "NULL AS default_value_dialect"@)
        + COLUMNS_FROM@,
{
    let initial_default = present_or(capabilities.column_initial_default, "initial_default", "NULL AS initial_default");
    let default_value = present_or(capabilities.column_default_value, "default_value", "NULL AS default_value");
    let value_type = present_or(capabilities.column_default_value_type, "default_value_type", "NULL AS default_value_type");
    let dialect = present_or(capabilities.column_default_value_dialect, "default_value_dialect", "NULL AS default_value_dialect");
    let mut out = COLUMNS_SELECT.to_string();
    out.append(initial_default);
    out.append(", ");
    out.append(default_value);
    out.append(", ");
    out.append(value_type);
    out.append(", ");
    out.append(dialect);
    out.append(COLUMNS_FROM);
    out
}

pub const ALL_COLUMNS_SELECT: &'static str = "SELECT
            s.schema_name,
            t.table_name,
            c.column_id,
            c.column_name,
            c.column_type,
            c.nulls_allowed,
            c.parent_column,
            ";

pub const ALL_COLUMNS_FROM: &'static str = "
         FROM ducklake_schema s
         JOIN ducklake_table t ON s.schema_id = t.schema_id
         JOIN ducklake_column c ON t.table_id = c.table_id
         WHERE ? >= s.begin_snapshot
           AND (? < s.end_snapshot OR s.end_snapshot IS NULL)
           AND ? >= t.begin_snapshot
           AND (? < t.end_snapshot OR t.end_snapshot IS NULL)
           AND ? >= c.begin_snapshot
           AND (? < c.end_snapshot OR c.end_snapshot IS NULL)
         ORDER BY s.schema_name, t.table_name, c.column_order";

/// The columns of all tables.
pub fn list_all_columns_sql(capabilities: SchemaCapabilities) -> (out: String)
    ensures
        out@ == ALL_COLUMNS_SELECT@
        + default_column(capabilities.column_initial_default, "c.initial_default"@, "NULL AS initial_default"@)
        + ",
            "@
        + default_column(capabilities.column_default_value, "c.default_value"@, "NULL AS default_value"@)
        + ",
            "@
        + default_column(capabilities.column_default_value_type, "c.default_value_type"@, "NULL AS default_value_type"@)
        + ",
            "@
        + default_column(capabilities.column_default_value_dialect, "c.default_value_dialect"@, "NULL AS default_value_dialect"@)
        + ALL_COLUMNS_FROM@,
{
    let initial_default = present_or(capabilities.column_initial_default, "c.initial_default", "NULL AS initial_default");
    let default_value = present_or(capabilities.column_default_value, "c.default_value", "NULL AS default_value");
    let value_type = present_or(capabilities.column_default_value_type, "c.default_value_type", "NULL AS default_value_type");
    let dialect = present_or(capabilities.column_default_value_dialect, "c.default_value_dialect", "NULL AS default_value_dialect");
    let mut out = ALL_COLUMNS_SELECT.to_string();
    out.append(initial_default);
    out.append(",
            ");
    out.append(default_value);
    out.append(",
            ");
    out.append(value_type);
    out.append(",
            ");
    out.append(dialect);
    out.append(ALL_COLUMNS_FROM);
    out
}

/// The query for deletes added between two snapshots: `base`, without the
/// condition on the snapshots of single deletes where they are not recorded.
pub fn added_deletes_sql(base: &str, capabilities: &SchemaCapabilities) -> (out: String)
    ensures
        out@ == if capabilities.delete_file_partial_max {
            base@
        } else {
            replaced(base@, "df.partial_max"@, "NULL"@)
        },
{
    if capabilities.delete_file_partial_max {
        return base.to_string();
    }
    proof {
        reveal_strlit("df.partial_max");
    }
    replace_text(base, "df.partial_max", "NULL")
}

// ---------------------------------------------------------------------------
// Inlined rows
// ---------------------------------------------------------------------------

/// The query for the columns of `table`, whose name holds no quote.
pub fn table_info_sql(table: &str) -> (out: String)
    ensures
        out@ == "SELECT name FROM pragma_table_info('"@ + table@ + "')"@,
{
    let mut out = "SELECT name FROM pragma_table_info('".to_string();
    out.append(table);
    out.append("')");
    out
}

/// Whether values of a type are read as text.
pub open spec fn is_read_as_text(data_type: DataType) -> bool {
    match data_type {
        DataType::Utf8 | DataType::LargeUtf8 | DataType::Utf8View => true,
        DataType::FixedSizeBinary(_) => true,
        _ => false,
    }
}

/// How a column that the table has is read.
pub open spec fn projected_ident(name: Seq<char>, data_type: DataType) -> Seq<char> {
    if is_read_as_text(data_type) {
        "CAST("@ + quoted(name, '"') + " AS VARCHAR)"@
    } else {
        quoted(name, '"')
    }
}

/// How each column is read; one that the table lacks reads as `NULL`.
pub open spec fn projected_idents(
    columns: Seq<Seq<char>>,
    types: Seq<DataType>,
    present: Seq<Seq<char>>,
) -> Seq<Seq<char>> {
    Seq::new(
        columns.len(),
        |i: int|
            if present.contains(columns[i]) {
                projected_ident(columns[i], types[i])
            } else {
                "NULL"@
            },
    )
}

fn project_idents(columns: &Vec<String>, types: &Vec<DataType>, present: &Vec<String>) -> (out:
    String)
    requires
        types@.len() == columns@.len(),
    ensures
        out@ == joined(projected_idents(views(columns@), types@, views(present@)), ", "@),
{
    let ghost wanted = projected_idents(views(columns@), types@, views(present@));
    let mut projected: Vec<String> = Vec::new();
    let mut i: usize = 0;
    while i < columns.len()
        invariant
            i <= columns@.len(),
            types@.len() == columns@.len(),
            wanted == projected_idents(views(columns@), types@, views(present@)),
            projected@.len() == i,
            forall|k: int| 0 <= k < i ==> (#[trigger] projected@[k])@ == wanted[k],
        decreases columns@.len() - i,
    {
        if contains_name(present, columns[i].as_str()) {
            let ident = quote_ident(columns[i].as_str());
            let as_text = match &types[i] {
                DataType::Utf8 | DataType::LargeUtf8 | DataType::Utf8View => true,
                DataType::FixedSizeBinary(_) => true,
                _ => false,
            };
            if as_text {
                let mut out = "CAST(".to_string();
                out.append(ident.as_str());
                out.append(" AS VARCHAR)");
                projected.push(out);
            } else {
                projected.push(ident);
            }
        } else {
            projected.push("NULL".to_string());
        }
        i = i + 1;
    }
    assert(views(projected@) =~= wanted);
    join(&projected, ", ")
}

pub const INLINED_WHERE: &'static str = " WHERE ? >= begin_snapshot AND (? < end_snapshot OR end_snapshot IS NULL) ORDER BY row_id";

/// The inlined rows of `table` that a snapshot shows.
pub fn inlined_data_sql(
    table: &str,
    columns: &Vec<String>,
    types: &Vec<DataType>,
    present: &Vec<String>,
) -> (out: String)
    requires
        types@.len() == columns@.len(),
    ensures
        out@ == "SELECT "@
        + joined(projected_idents(views(columns@), types@, views(present@)), ", "@)
        + " FROM "@ + quoted(table@, '"') + INLINED_WHERE@,
{
    let projected = project_idents(columns, types, present);
    let name = quote_ident(table);
    let mut out = "SELECT ".to_string();
    out.append(projected.as_str());
    out.append(" FROM ");
    out.append(name.as_str());
    out.append(INLINED_WHERE);
    out
}

pub const INLINED_ROWS_WHERE: &'static str = " WHERE ? >= begin_snapshot AND (? < end_snapshot OR end_snapshot IS NULL) ORDER BY begin_snapshot, row_id";

/// The inlined rows of `table` that a snapshot shows, with their row ids and the
/// snapshots that added them.
pub fn inlined_rows_sql(
    table: &str,
    columns: &Vec<String>,
    types: &Vec<DataType>,
    present: &Vec<String>,
) -> (out: String)
    requires
        types@.len() == columns@.len(),
    ensures
        out@ == "SELECT row_id, begin_snapshot, "@
        + joined(projected_idents(views(columns@), types@, views(present@)), ", "@)
        + " FROM "@ + quoted(table@, '"') + INLINED_ROWS_WHERE@,
{
    let projected = project_idents(columns, types, present);
    let name = quote_ident(table);
    let mut out = "SELECT row_id, begin_snapshot, ".to_string();
    out.append(projected.as_str());
    out.append(" FROM ");
    out.append(name.as_str());
    out.append(INLINED_ROWS_WHERE);
    out
}

/// The inlined deletes that a snapshot shows, kept in `table`.
pub fn inlined_deletes_sql(table: &str) -> (out: String)
    ensures
        out@ == "SELECT file_id, row_id FROM "@ + quoted(table@, '"')
        + " WHERE begin_snapshot <= ? ORDER BY file_id, row_id"@,
{
    let name = quote_ident(table);
    let mut out = "SELECT file_id, row_id FROM ".to_string();
    out.append(name.as_str());
    out.append(" WHERE begin_snapshot <= ? ORDER BY file_id, row_id");
    out
}

// ---------------------------------------------------------------------------
// Older catalogs
// ---------------------------------------------------------------------------

/// The highest origin snapshot that an older catalog records of a file with rows
/// of several: the number in front of the `:` of the last of its `|`-separated
/// pairs of snapshot and row count.
pub open spec fn partial_file_info_max(info: Seq<char>) -> Option<i64> {
    i64_value(trimmed(before_first(behind_last(info, '|'), ':')))
}

/// Reads the highest origin snapshot out of `info`, such as `2:1|3:2|4:3`.
pub fn parse_partial_file_info_max(info: &str) -> (snapshot: Option<i64>)
    ensures
        snapshot == partial_file_info_max(info@),
{
    let pair = last_segment(info, '|');
    let snapshot = first_segment(pair.as_str(), ':');
    let digits = trim(snapshot.as_str());
    parse_i64(digits.as_str())
}

/// Whether a file of an older catalog, or rows of it, were added in or after
/// `start_snapshot`.
pub open spec fn added_since(file: DataFileChange, start_snapshot: i64) -> bool {
    ||| file.begin_snapshot >= start_snapshot
    ||| (file.partial_max matches Some(latest) && latest >= start_snapshot)
}

/// The files of an older catalog that were added in or after `start_snapshot`,
/// whole or in part. Such a catalog cannot be asked for them directly.
pub fn files_added_since(files: Vec<DataFileChange>, start_snapshot: i64) -> (out: Vec<
    DataFileChange,
>)
    ensures
        out@ == files@.filter(|file: DataFileChange| added_since(file, start_snapshot)),
{
    let ghost all = files@;
    let ghost wanted = |file: DataFileChange| added_since(file, start_snapshot);
    let mut out: Vec<DataFileChange> = Vec::new();
    reveal(Seq::filter);
    assert(all.take(0) =~= Seq::empty());
    for file in it: files
        invariant
            it.seq() == all,
            wanted == (|file: DataFileChange| added_since(file, start_snapshot)),
            out@ =~= all.take(it.index() as int).filter(wanted),
    {
        proof {
            reveal(Seq::filter);
            assert(all.take(it.index() as int + 1).drop_last() =~= all.take(it.index() as int));
        }
        let latest_counts = match file.partial_max {
            Some(latest) => latest >= start_snapshot,
            None => false,
        };
        if file.begin_snapshot >= start_snapshot || latest_counts {
            out.push(file);
        }
    }
    assert(all.take(all.len() as int) =~= all);
    out
}

/// A catalog that lacks a part is probed again, whichever part it is, and one that has
/// them all is not.
pub proof fn lemma_missing_part(capabilities: SchemaCapabilities)
    ensures
        !capabilities.has_all() <==> !capabilities.data_file_partial_max || !capabilities.delete_file_partial_max
            || !capabilities.inlined_data_tables
            || !capabilities.views
            || !capabilities.column_initial_default
            || !capabilities.column_default_value
            || !capabilities.column_default_value_type
            || !capabilities.column_default_value_dialect,
{
}

proof fn lemma_last_of(front: Seq<char>, mark: char, tail: Seq<char>)
    requires
        !tail.contains(mark),
    ensures
        behind_last(front + seq![mark] + tail, mark) == tail,
        behind_last(tail, mark) == tail,
    decreases tail.len(),
{
    let whole = front + seq![mark] + tail;
    if tail.len() > 0 {
        let rest = tail.drop_last();
        assert(tail[tail.len() - 1] == tail.last());
        assert(!rest.contains(mark)) by {
            if rest.contains(mark) {
                let k = choose|k: int| 0 <= k < rest.len() && rest[k] == mark;
                assert(tail[k] == mark);
            }
        }
        lemma_last_of(front, mark, rest);
        assert(whole.drop_last() =~= front + seq![mark] + rest);
        assert(whole.last() == tail.last());
        assert(tail.contains(tail[tail.len() - 1]));
        assert(rest.push(tail.last()) =~= tail);
    } else {
        assert(whole.last() == mark);
        assert(tail =~= Seq::empty());
    }
}

proof fn lemma_first_of(front: Seq<char>, mark: char, tail: Seq<char>)
    requires
        !front.contains(mark),
    ensures
        before_first(front + seq![mark] + tail, mark) == front,
    decreases front.len(),
{
    let whole = front + seq![mark] + tail;
    if front.len() > 0 {
        let rest = front.skip(1);
        assert(front.contains(front[0]));
        assert(!rest.contains(mark)) by {
            if rest.contains(mark) {
                let k = choose|k: int| 0 <= k < rest.len() && rest[k] == mark;
                assert(front[k + 1] == mark);
            }
        }
        lemma_first_of(rest, mark, tail);
        assert(whole.skip(1) =~= rest + seq![mark] + tail);
        assert(seq![front[0]] + rest =~= front);
    } else {
        assert(whole[0] == mark);
        assert(front =~= Seq::empty());
    }
}

/// Of the pairs that an older catalog records the last one counts, and of it the
/// snapshot: the number of rows behind the `:` does not matter, nor do the pairs in front.
pub proof fn lemma_last_origin(pairs: Seq<char>, snapshot: i64, rows: Seq<char>)
    requires
        !rows.contains('|'),
    ensures
        partial_file_info_max(int_text(snapshot as int) + seq![':'] + rows) == Some(snapshot),
        partial_file_info_max(
            pairs + seq!['|'] + (int_text(snapshot as int) + seq![':'] + rows),
        ) == Some(snapshot),
{
    let number = int_text(snapshot as int);
    let pair = number + seq![':'] + rows;
    crate::scan::lemma_number_is_read_back(snapshot as int);
    lemma_number_is_plain(snapshot as int);
    assert(!pair.contains('|')) by {
        if pair.contains('|') {
            let k = choose|k: int| 0 <= k < pair.len() && pair[k] == '|';
            if k < number.len() {
                assert(number[k] == '|');
            } else if k > number.len() {
                assert(rows[k - number.len() - 1] == '|');
            }
        }
    }
    lemma_last_of(pairs, '|', pair);
    assert(!number.contains(':')) by {
        if number.contains(':') {
            let k = choose|k: int| 0 <= k < number.len() && number[k] == ':';
            assert(number[k] == ':');
        }
    }
    lemma_first_of(number, ':', rows);
    assert(trimmed(number) == number) by {
        assert(!is_space(number[0]));
        assert(!is_space(number.last())) by {
            assert(number[number.len() - 1] == number.last());
        }
    }
}

proof fn lemma_number_is_plain(n: int)
    ensures
        int_text(n).len() > 0,
        forall|i: int|
            0 <= i < int_text(n).len() ==> 48 <= #[trigger] int_text(n)[i] as int <= 57
                || int_text(n)[i] == '-',
{
    let m: nat = if n < 0 {
        (-n) as nat
    } else {
        n as nat
    };
    crate::scan::lemma_digits_of_nat(m);
    let digits = crate::text::nat_text(m);
    assert forall|i: int| 0 <= i < int_text(n).len() implies 48 <= #[trigger] int_text(n)[i] as int
        <= 57 || int_text(n)[i] == '-' by {
        if n < 0 {
            if i > 0 {
                assert(is_digit(digits[i - 1]));
            }
        } else {
            assert(is_digit(digits[i]));
        }
    }
}

/// A file was added since a snapshot if, and only if, it came with it or later, or rows
/// of it did.
pub proof fn lemma_added_since(file: DataFileChange, start_snapshot: i64)
    ensures
        !added_since(file, start_snapshot) <==> file.begin_snapshot < start_snapshot && (
        file.partial_max matches Some(latest) ==> latest < start_snapshot),
{
}

/// Each column that is read stands for the column of that name; text and binaries of a
/// fixed size are asked for as text, and a column that the table lacks is null.
pub proof fn lemma_projected_idents(
    columns: Seq<Seq<char>>,
    types: Seq<DataType>,
    present: Seq<Seq<char>>,
    i: int,
)
    requires
        0 <= i < columns.len(),
    ensures
        projected_idents(columns, types, present).len() == columns.len(),
        (forall|p: int| 0 <= p < present.len() ==> #[trigger] present[p] != columns[i])
            ==> projected_idents(columns, types, present)[i] == "NULL"@,
        (exists|p: int| 0 <= p < present.len() && #[trigger] present[p] == columns[i])
            ==> projected_idents(columns, types, present)[i] == (if types[i] is Utf8 || types[i]
            is LargeUtf8 || types[i] is Utf8View || types[i] is FixedSizeBinary {
            "CAST("@ + quoted(columns[i], '"') + " AS VARCHAR)"@
        } else {
            quoted(columns[i], '"')
        }),
{
    if exists|p: int| 0 <= p < present.len() && #[trigger] present[p] == columns[i] {
        let p = choose|p: int| 0 <= p < present.len() && #[trigger] present[p] == columns[i];
        assert(present.contains(present[p]));
    }
}

} // verus!
