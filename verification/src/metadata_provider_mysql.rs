//! A catalog kept in MySQL: its SQL dialect and its queries.

use vstd::prelude::*;
use crate::capabilities::Capabilities;
use crate::file_page::id_list;
use crate::inlined::{project_columns, projected_text};
use crate::metadata::{DuckLakeTableFile, RenderedColumnFilter};
use crate::order::opt_view;
use crate::parameters::{
    is_harmless, is_harmless_filter, is_open, lemma_harmless_joined, lemma_harmless_number,
    lemma_harmless_stats, lemma_harmless_sum, lemma_harmless_text, lemma_placeholders_sum,
    lemma_unquoted_text, placeholders,
};
use crate::scan::{ascii_lowered, contains_text, lower_ascii, text_contains};
use crate::stats_encode::{is_canonical_date, is_canonical_timestamp, is_canonical_timestamptz,
    is_date_text, is_timestamp_text, is_timestamptz_text};
use crate::text::{chars_of, int_text, join, joined, push_doubled, push_i64, quote_with, quoted,
    views};
use crate::types::DataType;

verus! {

/// Whether a query failed because the catalog does not have the table it reads.
pub fn is_missing_statistics_table(message: &str) -> (missing: bool)
    ensures
        missing == (contains_text(ascii_lowered(message@), "doesn't exist"@) || contains_text(
            ascii_lowered(message@),
            "does not exist"@,
        ) || contains_text(ascii_lowered(message@), "unknown table"@)),
{
    let lowered = lower_ascii(message);
    text_contains(lowered.as_str(), "doesn't exist") || text_contains(
        lowered.as_str(),
        "does not exist",
    ) || text_contains(lowered.as_str(), "unknown table")
}

/// `name` as an identifier, whatever it holds.
pub fn quote_ident(name: &str) -> (out: String)
    ensures
        out@ == quoted(name@, '`'),
{
    quote_with(name, '`')
}

// ---------------------------------------------------------------------------
// Comparing statistics with a constant
// ---------------------------------------------------------------------------

/// MySQL's spelling of the comparisons with statistics.
///
/// A cast to a number never fails in MySQL: what it cannot read becomes zero. So
/// every such cast is guarded by a pattern and yields `NULL` where the text does
/// not match it. Text is compared byte by byte, never under the server's own
/// collation, to which `Apple` and `apple` are the same.
pub struct MySqlStatsDialect;

/// The spelling of a date. It is not anchored at its end: see
/// [`whole_match_text`].
pub const MYSQL_CANONICAL_DATE: &'static str = "^[0-9]{4}-[0-9]{2}-[0-9]{2}";

/// The spelling of a timestamp, with a fraction that does not end in `0`.
pub const MYSQL_CANONICAL_TIMESTAMP: &'static str =
    "^[0-9]{4}-[0-9]{2}-[0-9]{2} [0-9]{2}:[0-9]{2}:[0-9]{2}([.][0-9]*[1-9])?";

/// The spelling of a timestamp in UTC.
pub const MYSQL_CANONICAL_TIMESTAMPTZ: &'static str =
    "^[0-9]{4}-[0-9]{2}-[0-9]{2} [0-9]{2}:[0-9]{2}:[0-9]{2}([.][0-9]*[1-9])?[+]00";

/// The spelling of an integer.
pub const MYSQL_INTEGER: &'static str = "^-?[0-9]{1,20}$";

/// The spelling of a float that MySQL can hold. Both runs of digits are bounded:
/// a number that is too large for MySQL is not refused by a cast but cut off.
pub const MYSQL_FLOAT: &'static str =
    "^-?([0-9]{1,255}([.][0-9]{1,255})?|[0-9]([.][0-9]{1,255})?e[-+][0-9]{1,2})$";

/// The condition that `expr` matches `pattern` from its first to its last
/// character. A `$` would also match in front of a last line break.
pub open spec fn whole_match_text(expr: Seq<char>, pattern: Seq<char>) -> Seq<char> {
    expr + " = REGEXP_SUBSTR("@ + expr + ", '"@ + pattern + "')"@
}

/// The condition that `expr` matches `pattern` over its whole value.
pub fn mysql_matches_whole(expr: &str, pattern: &str) -> (out: String)
    ensures
        out@ == whole_match_text(expr@, pattern@),
{
    let mut out = expr.to_string();
    out.append(" = REGEXP_SUBSTR(");
    out.append(expr);
    out.append(", '");
    out.append(pattern);
    out.append("')");
    out
}

/// `collated` where it matches `pattern`, `NULL` elsewhere.
pub open spec fn guarded_text(collated: Seq<char>, pattern: Seq<char>) -> Seq<char> {
    "CASE WHEN "@ + whole_match_text(collated, pattern) + " THEN "@ + collated + " END"@
}

/// `collated` where it matches `pattern`, `NULL` elsewhere.
pub fn mysql_guarded_text(collated: &str, pattern: &str) -> (out: String)
    ensures
        out@ == guarded_text(collated@, pattern@),
{
    let condition = mysql_matches_whole(collated, pattern);
    let mut out = "CASE WHEN ".to_string();
    out.append(condition.as_str());
    out.append(" THEN ");
    out.append(collated);
    out.append(" END");
    out
}

/// `expr` cast where it matches `pattern`, `NULL` elsewhere.
pub open spec fn guarded_cast_text(
    expr: Seq<char>,
    pattern: Seq<char>,
    sql_type: Seq<char>,
) -> Seq<char> {
    "CASE WHEN "@ + expr + " REGEXP '"@ + pattern + "' THEN CAST("@ + expr + " AS "@
        + sql_type + ") END"@
}

/// `expr` cast where it matches `pattern`, `NULL` elsewhere.
pub fn mysql_guarded_cast(expr: &str, pattern: &str, sql_type: &str) -> (out: String)
    ensures
        out@ == guarded_cast_text(expr@, pattern@, sql_type@),
{
    let mut out = "CASE WHEN ".to_string();
    out.append(expr);
    out.append(" REGEXP '");
    out.append(pattern);
    out.append("' THEN CAST(");
    out.append(expr);
    out.append(" AS ");
    out.append(sql_type);
    out.append(") END");
    out
}

/// `expr` for a comparison byte by byte.
pub open spec fn binary_text(expr: Seq<char>) -> Seq<char> {
    "CONVERT("@ + expr + " USING utf8mb4) COLLATE utf8mb4_0900_bin"@
}

/// How many digits a fixed-point number has in front of its point: at least one
/// is written.
pub open spec fn integer_digits(precision: int, scale: int) -> int {
    if precision - scale > 1 {
        precision - scale
    } else {
        1
    }
}

/// The spelling of a fixed-point number with at most so many digits on either
/// side of the point.
pub open spec fn decimal_pattern(precision: int, scale: int) -> Seq<char> {
    if scale == 0 {
        "^-?[0-9]{1,"@ + int_text(integer_digits(precision, scale)) + "}$"@
    } else {
        "^-?[0-9]{1,"@ + int_text(integer_digits(precision, scale)) + "}([.][0-9]{1,"@ + int_text(
            scale,
        ) + "})?$"@
    }
}

/// The value of a statistic for comparison with a constant.
///
/// Integers are read as fixed-point numbers, which hold the unsigned ones too.
/// Timestamps are compared as text: as values they would be rounded to
/// microseconds.
pub open spec fn mysql_cast_text(
    expr: Seq<char>,
    constant: Seq<char>,
    data_type: DataType,
) -> Option<Seq<char>> {
    match data_type {
        DataType::Float32 | DataType::Float64 => Some(
            guarded_cast_text(expr, MYSQL_FLOAT@, "DOUBLE"@),
        ),
        DataType::Decimal128(precision, scale) => if 0 <= scale <= 30 {
            Some(
                guarded_cast_text(
                    expr,
                    decimal_pattern(precision as int, scale as int),
                    "DECIMAL(65, "@ + int_text(scale as int) + ")"@,
                ),
            )
        } else {
            None
        },
        DataType::Date32 => if is_date_text(constant) {
            Some(
                "CAST(CASE WHEN "@ + whole_match_text(binary_text(expr), MYSQL_CANONICAL_DATE@)
        + " THEN "@ + binary_text(expr) + " END AS DATE)"@,
            )
        } else {
            None
        },
        DataType::Timestamp(_, None) => if is_timestamp_text(constant) {
            Some(guarded_text(binary_text(expr), MYSQL_CANONICAL_TIMESTAMP@))
        } else {
            None
        },
        DataType::Timestamp(_, Some(_)) => if is_timestamptz_text(constant) {
            Some(guarded_text(binary_text(expr), MYSQL_CANONICAL_TIMESTAMPTZ@))
        } else {
            None
        },
        DataType::Boolean => Some(
            "CASE WHEN "@ + binary_text(expr) + " IN ('true', 'false') THEN "@
        + binary_text(expr) + " END"@,
        ),
        _ => if data_type.is_integer_type() {
            Some(guarded_cast_text(expr, MYSQL_INTEGER@, "DECIMAL(65, 0)"@))
        } else {
            None
        },
    }
}

fn decimal_pattern_of(precision: u8, scale: u8) -> (out: String)
    ensures
        out@ == decimal_pattern(precision as int, scale as int),
{
    let digits: i64 = if precision > scale && precision - scale > 1 {
        (precision - scale) as i64
    } else {
        1
    };
    let mut out = "^-?[0-9]{1,".to_string();
    push_i64(&mut out, digits);
    if scale == 0 {
        out.append("}$");
    } else {
        out.append("}([.][0-9]{1,");
        push_i64(&mut out, scale as i64);
        out.append("})?$");
    }
    out
}

impl MySqlStatsDialect {
    /// The statistic `expr` as a value to compare `constant` with, or `None`
    /// where the comparison is not to be made.
    pub fn try_cast(&self, expr: &str, constant: &str, data_type: &DataType) -> (out: Option<
        String,
    >)
        ensures
            opt_view(out) == mysql_cast_text(expr@, constant@, *data_type),
    {
        match data_type {
            DataType::Float32 | DataType::Float64 => {
                Some(mysql_guarded_cast(expr, MYSQL_FLOAT, "DOUBLE"))
            },
            DataType::Decimal128(precision, scale) => {
                if *scale >= 0 && *scale <= 30 {
                    let pattern = decimal_pattern_of(*precision, *scale as u8);
                    let mut sql_type = "DECIMAL(65, ".to_string();
                    push_i64(&mut sql_type, *scale as i64);
                    sql_type.append(")");
                    Some(mysql_guarded_cast(expr, pattern.as_str(), sql_type.as_str()))
                } else {
                    None
                }
            },
            DataType::Date32 => {
                if is_canonical_date(constant) {
                    let text = self.collate_binary(expr);
                    let condition = mysql_matches_whole(text.as_str(), MYSQL_CANONICAL_DATE);
                    Some({
                        let mut out = "CAST(CASE WHEN ".to_string();
                        out.append(condition.as_str());
                        out.append(" THEN ");
                        out.append(text.as_str());
                        out.append(" END AS DATE)");
                        out
                    })
                } else {
                    None
                }
            },
            DataType::Timestamp(_, None) => {
                if is_canonical_timestamp(constant) {
                    let text = self.collate_binary(expr);
                    Some(mysql_guarded_text(text.as_str(), MYSQL_CANONICAL_TIMESTAMP))
                } else {
                    None
                }
            },
            DataType::Timestamp(_, Some(_)) => {
                if is_canonical_timestamptz(constant) {
                    let text = self.collate_binary(expr);
                    Some(mysql_guarded_text(text.as_str(), MYSQL_CANONICAL_TIMESTAMPTZ))
                } else {
                    None
                }
            },
            DataType::Boolean => {
                let text = self.collate_binary(expr);
                Some({
                    let mut out = "CASE WHEN ".to_string();
                    out.append(text.as_str());
                    out.append(" IN ('true', 'false') THEN ");
                    out.append(text.as_str());
                    out.append(" END");
                    out
                })
            },
            _ => {
                if data_type.is_integer() {
                    Some(mysql_guarded_cast(expr, MYSQL_INTEGER, "DECIMAL(65, 0)"))
                } else {
                    None
                }
            },
        }
    }

    /// `expr` for a comparison byte by byte of its text in UTF-8.
    pub fn collate_binary(&self, expr: &str) -> (out: String)
        ensures
            out@ == binary_text(expr@),
    {
        let mut out = "CONVERT(".to_string();
        out.append(expr);
        out.append(" USING utf8mb4) COLLATE utf8mb4_0900_bin");
        out
    }

    /// The condition that `expr` is unknown or not false.
    pub fn boolean_is_not_false(&self, expr: &str) -> (out: String)
        ensures
            out@ == expr@ + " IS NULL OR "@ + expr@ + " <> FALSE"@,
    {
        let mut out = expr.to_string();
        out.append(" IS NULL OR ");
        out.append(expr);
        out.append(" <> FALSE");
        out
    }

    /// `text` as a constant that means the same under every setting of the
    /// server. A `\` may or may not begin an escape there, so text with one is
    /// written as the hexadecimal digits of its bytes.
    pub fn quote_literal(&self, text: &str) -> (out: String)
        ensures
            out@ == literal_text(text@),
    {
        if !contains_backslash(text) {
            return quote_with(text, '\'');
        }
        let mut out = "_utf8mb4 X'".to_string();
        push_hex(&mut out, text);
        out.append("'");
        out
    }
}

// ---------------------------------------------------------------------------
// Constants
// ---------------------------------------------------------------------------

/// The hexadecimal digit of `n`, as a capital.
pub open spec fn hex_digit(n: int) -> char {
    if n < 10 {
        (48 + n) as char
    } else {
        (55 + n) as char
    }
}

/// Two hexadecimal digits for each byte.
pub open spec fn hex_text(bytes: Seq<u8>) -> Seq<char>
    decreases bytes.len(),
{
    if bytes.len() == 0 {
        Seq::empty()
    } else {
        hex_text(bytes.drop_last()).push(hex_digit(bytes.last() as int / 16)).push(
            hex_digit(bytes.last() as int % 16),
        )
    }
}

/// A constant: quoted, or in hexadecimal where it holds a backslash.
pub open spec fn literal_text(text: Seq<char>) -> Seq<char> {
    if text.contains('\\') {
        "_utf8mb4 X'"@ + hex_text(vstd::utf8::encode_utf8(text)) + "'"@
    } else {
        quoted(text, '\'')
    }
}

fn contains_backslash(text: &str) -> (found: bool)
    ensures
        found == text@.contains('\\'),
{
    let chars = chars_of(text);
    let mut i: usize = 0;
    while i < chars.len()
        invariant
            i <= chars@.len(),
            chars@ == text@,
            forall|k: int| 0 <= k < i ==> #[trigger] text@[k] != '\\',
        decreases chars@.len() - i,
    {
        if chars[i] == '\\' {
            assert(text@[i as int] == '\\');
            return true;
        }
        i = i + 1;
    }
    false
}

fn hex_digit_of(n: u8) -> (c: char)
    requires
        n < 16,
    ensures
        c == hex_digit(n as int),
{
    if n < 10 {
        (48 + n) as char
    } else {
        (55 + n) as char
    }
}

fn push_hex(out: &mut String, text: &str)
    ensures
        final(out)@ == old(out)@ + hex_text(vstd::utf8::encode_utf8(text@)),
{
    let bytes = text.as_bytes();
    let mut i: usize = 0;
    assert(bytes@.take(0) =~= Seq::empty());
    while i < bytes.len()
        invariant
            i <= bytes@.len(),
            out@ =~= old(out)@ + hex_text(bytes@.take(i as int)),
        decreases bytes@.len() - i,
    {
        let byte: u8 = bytes[i];
        assert(bytes@.take(i as int + 1).drop_last() =~= bytes@.take(i as int));
        out.push(hex_digit_of(byte / 16));
        out.push(hex_digit_of(byte % 16));
        i = i + 1;
    }
    assert(bytes@.take(bytes@.len() as int) =~= bytes@);
}

/// The number a hexadecimal digit stands for.
pub open spec fn hex_value(c: char) -> int {
    if '0' <= c <= '9' {
        c as int - 48
    } else {
        c as int - 55
    }
}

/// The bytes that pairs of hexadecimal digits stand for.
pub open spec fn hex_bytes(text: Seq<char>) -> Seq<u8>
    decreases text.len(),
{
    if text.len() < 2 {
        Seq::empty()
    } else {
        hex_bytes(text.take(text.len() - 2)).push(
            (16 * hex_value(text[text.len() - 2]) + hex_value(text[text.len() - 1])) as u8,
        )
    }
}

/// A constant in hexadecimal stands for the bytes of the text it was made from.
pub proof fn lemma_hex_bytes(bytes: Seq<u8>)
    ensures
        hex_bytes(hex_text(bytes)) == bytes,
    decreases bytes.len(),
{
    if bytes.len() > 0 {
        let text = hex_text(bytes);
        lemma_hex_bytes(bytes.drop_last());
        assert(text.take(text.len() - 2) =~= hex_text(bytes.drop_last()));
        let byte = bytes.last() as int;
        assert(hex_value(hex_digit(byte / 16)) == byte / 16);
        assert(hex_value(hex_digit(byte % 16)) == byte % 16);
        assert(hex_bytes(text) =~= bytes);
    }
}

proof fn lemma_hex_text_digits(bytes: Seq<u8>)
    ensures
        forall|i: int|
            0 <= i < hex_text(bytes).len() ==> '0' <= (#[trigger] hex_text(bytes)[i]) <= 'F',
    decreases bytes.len(),
{
    if bytes.len() > 0 {
        lemma_hex_text_digits(bytes.drop_last());
        let rest = hex_text(bytes.drop_last());
        let text = hex_text(bytes);
        let byte = bytes.last() as int;
        assert forall|i: int| 0 <= i < text.len() implies '0' <= (#[trigger] text[i]) <= 'F' by {
            if i < rest.len() {
                assert(text[i] == rest[i]);
            } else if i == rest.len() {
                assert(text[i] == hex_digit(byte / 16));
            } else {
                assert(text[i] == hex_digit(byte % 16));
            }
        }
    }
}

/// No constant, whatever it holds, is written with a backslash, which the server
/// might read as the start of an escape.
pub proof fn lemma_literal_has_no_backslash(text: Seq<char>)
    ensures
        !literal_text(text).contains('\\'),
{
    let out = literal_text(text);
    if text.contains('\\') {
        let bytes = vstd::utf8::encode_utf8(text);
        lemma_hex_text_digits(bytes);
        reveal_strlit("_utf8mb4 X'");
        reveal_strlit("'");
        assert forall|i: int| 0 <= i < out.len() implies #[trigger] out[i] != '\\' by {
            let head = "_utf8mb4 X'"@.len();
            if i < head {
                assert(out[i] == "_utf8mb4 X'"@[i]);
            } else if i < head + hex_text(bytes).len() {
                assert(out[i] == hex_text(bytes)[i - head]);
            } else {
                assert(out[i] == "'"@[i - head - hex_text(bytes).len()]);
            }
        }
    } else {
        lemma_doubled_keeps_out(text, '\'', '\\');
    }
}

proof fn lemma_doubled_keeps_out(text: Seq<char>, mark: char, c: char)
    requires
        !text.contains(c),
        c != mark,
    ensures
        !crate::text::doubled(text, mark).contains(c),
        !quoted(text, mark).contains(c),
    decreases text.len(),
{
    if text.len() > 0 {
        let rest = text.drop_last();
        assert(!rest.contains(c)) by {
            if rest.contains(c) {
                let i = choose|i: int| 0 <= i < rest.len() && rest[i] == c;
                assert(text[i] == c);
            }
        }
        assert(text[text.len() - 1] != c);
        lemma_doubled_keeps_out(rest, mark, c);
        let before = crate::text::doubled(rest, mark);
        let out = crate::text::doubled(text, mark);
        assert forall|i: int| 0 <= i < out.len() implies #[trigger] out[i] != c by {
            if i < before.len() {
                assert(out[i] == before[i]);
                assert(before.contains(before[i]));
            }
        }
    }
    let inner = crate::text::doubled(text, mark);
    let out = quoted(text, mark);
    assert forall|i: int| 0 <= i < out.len() implies #[trigger] out[i] != c by {
        if 0 < i < out.len() - 1 {
            assert(out[i] == inner[i - 1]);
            assert(inner.contains(inner[i - 1]));
        }
    }
}

// ---------------------------------------------------------------------------
// What a filter on statistics adds to the listing
// ---------------------------------------------------------------------------

/// The pieces of SQL that narrow the listing of files.
#[derive(Debug, Clone, PartialEq, Eq)]
pub struct StatsFilterSql {
    /// The `WITH` clause, ended by a line break.
    pub cte: String,
    /// One join for each filtered column.
    pub joins: String,
    /// The conditions, each behind an `AND`.
    pub conditions: String,
}

/// The common table expression that selects the statistics of one column.
pub open spec fn cte_text(filter: RenderedColumnFilter, table_id: i64) -> Seq<char> {
    filter.alias@ + " AS (SELECT data_file_id, "@ + joined(views(filter.stats@), ", "@)
        + "
                        FROM ducklake_file_column_stats
                        WHERE column_id = "@
        + int_text(filter.column_id as int) + " AND table_id = "@
        + int_text(table_id as int) + ")"@
}

/// The join that brings the statistics of one column in.
pub open spec fn join_text(filter: RenderedColumnFilter) -> Seq<char> {
    "
                 LEFT JOIN "@
        + filter.alias@ + " ON "@ + filter.alias@ + ".data_file_id = data.data_file_id"@
}

/// The condition on the statistics of one column.
pub open spec fn condition_text(filter: RenderedColumnFilter) -> Seq<char> {
    "
                   AND "@
        + filter.condition@
}

fn cte_of(filter: &RenderedColumnFilter, table_id: i64) -> (out: String)
    ensures
        out@ == cte_text(*filter, table_id),
{
    let stats = join(&filter.stats, ", ");
    let mut out = filter.alias.clone();
    out.append(" AS (SELECT data_file_id, ");
    out.append(stats.as_str());
    out.append("
                        FROM ducklake_file_column_stats
                        WHERE column_id = ");
    push_i64(&mut out, filter.column_id);
    out.append(" AND table_id = ");
    push_i64(&mut out, table_id);
    out.append(")");
    out
}

fn join_of(filter: &RenderedColumnFilter) -> (out: String)
    ensures
        out@ == join_text(*filter),
{
    let mut out = "
                 LEFT JOIN ".to_string();
    out.append(filter.alias.as_str());
    out.append(" ON ");
    out.append(filter.alias.as_str());
    out.append(".data_file_id = data.data_file_id");
    out
}

fn condition_of(filter: &RenderedColumnFilter) -> (out: String)
    ensures
        out@ == condition_text(*filter),
{
    let mut out = "
                   AND ".to_string();
    out.append(filter.condition.as_str());
    out
}

/// Whether `sql` narrows the listing by `filters`.
pub open spec fn narrows(
    sql: StatsFilterSql,
    filters: Seq<RenderedColumnFilter>,
    table_id: i64,
) -> bool {
    &&& sql.cte@ == "WITH "@ + joined(
        filters.map_values(|filter: RenderedColumnFilter| cte_text(filter, table_id)),
        ",\n     "@,
    ) + "\n"@
    &&& sql.joins@ == joined(
        filters.map_values(|filter: RenderedColumnFilter| join_text(filter)),
        Seq::empty(),
    )
    &&& sql.conditions@ == joined(
        filters.map_values(|filter: RenderedColumnFilter| condition_text(filter)),
        Seq::empty(),
    )
}

/// What the statistics of `rendered` add to the listing of a table's files, or
/// `None` when there is no filter. No parameter is added: all values stand in
/// the text.
pub fn stats_filter_sql(rendered: &Option<Vec<RenderedColumnFilter>>, table_id: i64) -> (out:
    Option<StatsFilterSql>)
    ensures
        match rendered {
            Some(filters) => out matches Some(sql) && narrows(sql, filters@, table_id),
            None => out is None,
        },
{
    match rendered {
        None => None,
        Some(filters) => {
            let mut ctes: Vec<String> = Vec::new();
            let mut joins: Vec<String> = Vec::new();
            let mut conditions: Vec<String> = Vec::new();
            let mut i: usize = 0;
            while i < filters.len()
                invariant
                    i <= filters@.len(),
                    ctes@.len() == i,
                    joins@.len() == i,
                    conditions@.len() == i,
                    forall|k: int|
                        0 <= k < i ==> (#[trigger] ctes@[k])@ == cte_text(filters@[k], table_id),
                    forall|k: int| 0 <= k < i ==> (#[trigger] joins@[k])@ == join_text(filters@[k]),
                    forall|k: int|
                        0 <= k < i ==> (#[trigger] conditions@[k])@ == condition_text(filters@[k]),
                decreases filters@.len() - i,
            {
                ctes.push(cte_of(&filters[i], table_id));
                joins.push(join_of(&filters[i]));
                conditions.push(condition_of(&filters[i]));
                i = i + 1;
            }
            proof {
                assert(views(ctes@) =~= filters@.map_values(
                    |filter: RenderedColumnFilter| cte_text(filter, table_id),
                ));
                assert(views(joins@) =~= filters@.map_values(
                    |filter: RenderedColumnFilter| join_text(filter),
                ));
                assert(views(conditions@) =~= filters@.map_values(
                    |filter: RenderedColumnFilter| condition_text(filter),
                ));
                reveal_strlit("");
                assert(""@ =~= Seq::<char>::empty());
            }
            let ctes_text = join(&ctes, ",\n     ");
            let mut cte = "WITH ".to_string();
            cte.append(ctes_text.as_str());
            cte.append("\n");
            Some(
                StatsFilterSql { cte, joins: join(&joins, ""), conditions: join(&conditions, "") },
            )
        },
    }
}

// ---------------------------------------------------------------------------
// Optional parts of the catalog
// ---------------------------------------------------------------------------

/// Which optional parts a catalog in MySQL has.
#[derive(Debug, Clone, Copy, PartialEq, Eq)]
pub struct SchemaCapabilities {
    /// Data files record the highest origin of their rows.
    pub data_file_partial_max: bool,
    /// Delete files record the highest snapshot of their deletes.
    pub delete_file_partial_max: bool,
    /// Tables with inlined rows are registered.
    pub inlined_data_tables: bool,
    /// There can be views.
    pub views: bool,
}

impl SchemaCapabilities {
    /// Reads the answer of the probe, which counts what it finds of each part.
    pub fn from_counts(
        data_file_partial_max: i64,
        delete_file_partial_max: i64,
        inlined_data_tables: i64,
        views: i64,
    ) -> (capabilities: Self)
        ensures
            capabilities == (SchemaCapabilities {
                data_file_partial_max: data_file_partial_max > 0,
                delete_file_partial_max: delete_file_partial_max > 0,
                inlined_data_tables: inlined_data_tables > 0,
                views: views > 0,
            }),
    {
        SchemaCapabilities {
            data_file_partial_max: data_file_partial_max > 0,
            delete_file_partial_max: delete_file_partial_max > 0,
            inlined_data_tables: inlined_data_tables > 0,
            views: views > 0,
        }
    }
}

impl Capabilities for SchemaCapabilities {
    open spec fn has_all(self) -> bool {
        &&& self.data_file_partial_max
        &&& self.delete_file_partial_max
        &&& self.inlined_data_tables
        &&& self.views
    }

    fn all(&self) -> (all: bool) {
        self.data_file_partial_max && self.delete_file_partial_max && self.inlined_data_tables
            && self.views
    }
}

/// `column` where the catalog has it, `NULL` where it does not.
pub open spec fn column_or_null(present: bool, column: Seq<char>) -> Seq<char> {
    if present {
        column
    } else {
        "NULL"@
    }
}

fn present_or_null(present: bool, column: &'static str) -> (out: &'static str)
    ensures
        out@ == column_or_null(present, column@),
{
    if present {
        column
    } else {
        "NULL"
    }
}

// ---------------------------------------------------------------------------
// Queries
// ---------------------------------------------------------------------------

pub const LISTING_SELECT: &'static str = "SELECT data.data_file_id, data.path, data.path_is_relative,
                        data.file_size_bytes, data.footer_size, data.encryption_key,
                        data.row_id_start, data.record_count,
                        del.delete_file_id, del.path, del.path_is_relative,
                        del.file_size_bytes, del.footer_size, del.encryption_key,
                        del.delete_count,
                        data.mapping_id
                 FROM ducklake_data_file AS data
                 LEFT JOIN ducklake_delete_file AS del
                   ON data.data_file_id = del.data_file_id
                  AND del.table_id = ?
                  AND ? >= del.begin_snapshot
                  AND (? < del.end_snapshot OR del.end_snapshot IS NULL)";

pub const LISTING_WHERE: &'static str = "
                 WHERE data.table_id = ?
                   AND ? >= data.begin_snapshot
                   AND (? < data.end_snapshot OR data.end_snapshot IS NULL)
                   AND data.data_file_id > ?";

pub const LISTING_ORDER: &'static str = "
                 ORDER BY data.data_file_id
                 LIMIT ?";

/// One page of the listing of a table's files. The conditions of a filter stand
/// in front of the limit and leave the order alone, so that a page never ends
/// early.
pub open spec fn listing_text(cte: Seq<char>, joins: Seq<char>, conditions: Seq<char>) -> Seq<
    char,
> {
    cte + LISTING_SELECT@ + joins + LISTING_WHERE@ + conditions + LISTING_ORDER@
}

/// The pieces that narrow a listing are harmless, where the filters that they are made
/// of are.
proof fn lemma_harmless_pieces(
    sql: StatsFilterSql,
    filters: Seq<RenderedColumnFilter>,
    table_id: i64,
)
    requires
        narrows(sql, filters, table_id),
        forall|i: int| 0 <= i < filters.len() ==> is_harmless_filter(#[trigger] filters[i]),
    ensures
        is_harmless(sql.cte@),
        is_harmless(sql.joins@),
        is_harmless(sql.conditions@),
{
    let ctes = filters.map_values(|filter: RenderedColumnFilter| cte_text(filter, table_id));
    let joins = filters.map_values(|filter: RenderedColumnFilter| join_text(filter));
    let conditions = filters.map_values(|filter: RenderedColumnFilter| condition_text(filter));
    assert forall|i: int| 0 <= i < ctes.len() implies is_harmless(#[trigger] ctes[i]) by {
        lemma_harmless_cte(filters[i], table_id);
    }
    assert forall|i: int| 0 <= i < joins.len() implies is_harmless(#[trigger] joins[i]) by {
        lemma_harmless_join(filters[i]);
    }
    assert forall|i: int| 0 <= i < conditions.len() implies is_harmless(
        #[trigger] conditions[i],
    ) by {
        let before = "
                   AND "@;
        reveal_strlit("
                   AND ");
        lemma_harmless_text(before);
        lemma_harmless_sum(before, filters[i].condition@);
    }
    reveal_strlit("WITH ");
    reveal_strlit(",\n     ");
    reveal_strlit("\n");
    lemma_harmless_text("WITH "@);
    lemma_harmless_text(",\n     "@);
    lemma_harmless_text("\n"@);
    lemma_harmless_text(Seq::empty());
    lemma_harmless_joined(ctes, ",\n     "@);
    lemma_harmless_joined(joins, Seq::empty());
    lemma_harmless_joined(conditions, Seq::empty());
    let selected = joined(ctes, ",\n     "@);
    lemma_harmless_sum("WITH "@, selected);
    lemma_harmless_sum("WITH "@ + selected, "\n"@);
}

proof fn lemma_harmless_cte(filter: RenderedColumnFilter, table_id: i64)
    requires
        is_harmless_filter(filter),
    ensures
        is_harmless(cte_text(filter, table_id)),
{
    reveal_strlit(" AS (SELECT data_file_id, ");
    reveal_strlit("
                        FROM ducklake_file_column_stats
                        WHERE column_id = ");
    reveal_strlit(" AND table_id = ");
    reveal_strlit(")");
    let select = " AS (SELECT data_file_id, "@;
    let from = "
                        FROM ducklake_file_column_stats
                        WHERE column_id = "@;
    let (and, end) = (" AND table_id = "@, ")"@);
    let stats = joined(views(filter.stats@), ", "@);
    let column = int_text(filter.column_id as int);
    let table = int_text(table_id as int);
    lemma_harmless_text(select);
    lemma_harmless_text(from);
    lemma_harmless_text(and);
    lemma_harmless_text(end);
    lemma_harmless_stats(filter);
    lemma_harmless_number(filter.column_id as int);
    lemma_harmless_number(table_id as int);
    let s1 = filter.alias@ + select;
    lemma_harmless_sum(filter.alias@, select);
    let s2 = s1 + stats;
    lemma_harmless_sum(s1, stats);
    let s3 = s2 + from;
    lemma_harmless_sum(s2, from);
    let s4 = s3 + column;
    lemma_harmless_sum(s3, column);
    let s5 = s4 + and;
    lemma_harmless_sum(s4, and);
    let s6 = s5 + table;
    lemma_harmless_sum(s5, table);
    let s7 = s6 + end;
    lemma_harmless_sum(s6, end);
}

proof fn lemma_harmless_join(filter: RenderedColumnFilter)
    requires
        is_harmless_filter(filter),
    ensures
        is_harmless(join_text(filter)),
{
    reveal_strlit("
                 LEFT JOIN ");
    reveal_strlit(" ON ");
    reveal_strlit(".data_file_id = data.data_file_id");
    let join = "
                 LEFT JOIN "@;
    let (on, end) = (" ON "@, ".data_file_id = data.data_file_id"@);
    lemma_harmless_text(join);
    lemma_harmless_text(on);
    lemma_harmless_text(end);
    let s1 = join + filter.alias@;
    lemma_harmless_sum(join, filter.alias@);
    let s2 = s1 + on;
    lemma_harmless_sum(s1, on);
    let s3 = s2 + filter.alias@;
    lemma_harmless_sum(s2, filter.alias@);
    let s4 = s3 + end;
    lemma_harmless_sum(s3, end);
}

/// Narrowing adds no parameter: the narrowed listing takes as many as the whole one,
/// since what is put in takes none.
pub proof fn lemma_narrowing_adds_no_parameter(
    sql: StatsFilterSql,
    filters: Seq<RenderedColumnFilter>,
    table_id: i64,
)
    requires
        narrows(sql, filters, table_id),
        forall|i: int| 0 <= i < filters.len() ==> is_harmless_filter(#[trigger] filters[i]),
    ensures
        placeholders(listing_text(sql.cte@, sql.joins@, sql.conditions@)) == placeholders(
            listing_text(""@, ""@, ""@),
        ),
{
    reveal_strlit("");
    lemma_harmless_text(""@);
    lemma_harmless_pieces(sql, filters, table_id);
    lemma_listing_placeholders(sql.cte@, sql.joins@, sql.conditions@);
    lemma_listing_placeholders(""@, ""@, ""@);
}

proof fn lemma_listing_select_is_closed()
    ensures
        !is_open(LISTING_SELECT@),
{
    reveal_strlit("SELECT data.data_file_id, data.path, data.path_is_relative,
                        data.file_size_bytes, data.footer_size, data.encryption_key,
                        data.row_id_start, data.record_count,
                        del.delete_file_id, del.path, del.path_is_relative,
                        del.file_size_bytes, del.footer_size, del.encryption_key,
                        del.delete_count,
                        data.mapping_id
                 FROM ducklake_data_file AS data
                 LEFT JOIN ducklake_delete_file AS del
                   ON data.data_file_id = del.data_file_id
                  AND del.table_id = ?
                  AND ? >= del.begin_snapshot
                  AND (? < del.end_snapshot OR del.end_snapshot IS NULL)");
    lemma_unquoted_text(LISTING_SELECT@);
}

proof fn lemma_listing_where_is_closed()
    ensures
        !is_open(LISTING_WHERE@),
{
    reveal_strlit("
                 WHERE data.table_id = ?
                   AND ? >= data.begin_snapshot
                   AND (? < data.end_snapshot OR data.end_snapshot IS NULL)
                   AND data.data_file_id > ?");
    lemma_unquoted_text(LISTING_WHERE@);
}

/// A listing takes its own parameters alone, whatever harmless pieces are put in.
proof fn lemma_listing_placeholders(
    cte: Seq<char>,
    joins: Seq<char>,
    conditions: Seq<char>,
)
    requires
        is_harmless(cte),
        is_harmless(joins),
        is_harmless(conditions),
    ensures
        placeholders(listing_text(cte, joins, conditions)) == placeholders(LISTING_SELECT@) + placeholders(LISTING_WHERE@) + placeholders(LISTING_ORDER@),
{
    lemma_listing_select_is_closed();
    lemma_listing_where_is_closed();
    let s1 = cte + LISTING_SELECT@;
    lemma_placeholders_sum(cte, LISTING_SELECT@);
    let s2 = s1 + joins;
    lemma_placeholders_sum(s1, joins);
    let s3 = s2 + LISTING_WHERE@;
    lemma_placeholders_sum(s2, LISTING_WHERE@);
    let s4 = s3 + conditions;
    lemma_placeholders_sum(s3, conditions);
    let s5 = s4 + LISTING_ORDER@;
    lemma_placeholders_sum(s4, LISTING_ORDER@);
}

/// One page of the listing of a table's files, narrowed where there is a filter.
pub fn file_listing_sql(filter_sql: &Option<StatsFilterSql>) -> (out: String)
    ensures
        match filter_sql {
            Some(sql) => out@ == listing_text(sql.cte@, sql.joins@, sql.conditions@),
            None => out@ == listing_text(""@, ""@, ""@),
        },
{
    let (cte, joins, conditions): (&str, &str, &str) = match filter_sql {
        Some(sql) => (sql.cte.as_str(), sql.joins.as_str(), sql.conditions.as_str()),
        None => ("", "", ""),
    };
    let mut out = cte.to_string();
    out.append(LISTING_SELECT);
    out.append(joins);
    out.append(LISTING_WHERE);
    out.append(conditions);
    out.append(LISTING_ORDER);
    out
}

/// The restriction of a query to the files of a page.
pub open spec fn page_id_text(column: Seq<char>, files: Seq<DuckLakeTableFile>) -> Seq<char> {
    "
                   AND "@
        + column + " IN ("@ + crate::file_page::id_list_text(files) + ")"@
}

/// The restriction to `files` where there is a filter, nothing where there is
/// none: then the range of ids is enough.
pub open spec fn restriction_text(
    column: Seq<char>,
    files: Seq<DuckLakeTableFile>,
    filtered: bool,
) -> Seq<char> {
    if filtered {
        page_id_text(column, files)
    } else {
        ""@
    }
}

fn restriction_of(column: &str, files: &Vec<DuckLakeTableFile>, filtered: bool) -> (out: String)
    ensures
        out@ == restriction_text(column@, files@, filtered),
{
    if !filtered {
        return "".to_string();
    }
    let ids = id_list(files);
    let mut out = "
                   AND ".to_string();
    out.append(column);
    out.append(" IN (");
    out.append(ids.as_str());
    out.append(")");
    out
}

pub const STATISTICS_SELECT: &'static str = "SELECT stats.data_file_id, stats.column_id,
                        stats.column_size_bytes, stats.value_count, stats.null_count,
                        stats.min_value, stats.max_value, stats.contains_nan
                 FROM ducklake_file_column_stats AS stats
                 INNER JOIN ducklake_data_file AS data
                   ON data.data_file_id = stats.data_file_id
                  AND data.table_id = stats.table_id
                 WHERE stats.table_id = ?
                   AND ? >= data.begin_snapshot
                   AND (? < data.end_snapshot OR data.end_snapshot IS NULL)
                   AND stats.data_file_id > ?
                   AND stats.data_file_id <= ?";

pub const STATISTICS_ORDER: &'static str = "
                 ORDER BY stats.data_file_id, stats.column_id";

/// The statistics of the files of a page.
pub fn page_statistics_sql(files: &Vec<DuckLakeTableFile>, filtered: bool) -> (out: String)
    ensures
        out@ == STATISTICS_SELECT@ + restriction_text("stats.data_file_id"@, files@, filtered)
        + STATISTICS_ORDER@,
{
    let restriction = restriction_of("stats.data_file_id", files, filtered);
    let mut out = STATISTICS_SELECT.to_string();
    out.append(restriction.as_str());
    out.append(STATISTICS_ORDER);
    out
}

/// The partition values of the files of a page: the query `base`, restricted.
pub fn page_partition_values_sql(
    base: &str,
    files: &Vec<DuckLakeTableFile>,
    filtered: bool,
) -> (out: String)
    ensures
        out@ == base@ + restriction_text("data_file_id"@, files@, filtered),
{
    let restriction = restriction_of("data_file_id", files, filtered);
    let mut out = base.to_string();
    out.append(restriction.as_str());
    out
}

pub const ADDED_SELECT: &'static str = "SELECT
                    data.begin_snapshot,
                    data.path,
                    data.path_is_relative,
                    data.file_size_bytes,
                    data.footer_size,
                    data.encryption_key,
                    data.row_id_start,
                    ";

pub const ADDED_WHERE: &'static str = ",
                    data.mapping_id
                FROM ducklake_data_file AS data
                WHERE data.table_id = ?
                  AND data.begin_snapshot <= ?
                  AND (data.begin_snapshot >= ?
                       OR (";

/// The data files added between two snapshots. A file with rows of several
/// snapshots counts by its latest row.
pub fn added_files_sql(capabilities: &SchemaCapabilities) -> (out: String)
    ensures
        out@ == ({
            let latest = column_or_null(capabilities.data_file_partial_max, "data.partial_max"@);
            ADDED_SELECT@ + latest + ADDED_WHERE@ + latest + " IS NOT NULL AND "@ + latest
        + " >= ?))
                ORDER BY data.begin_snapshot"@
        }),
{
    let latest = present_or_null(capabilities.data_file_partial_max, "data.partial_max");
    let mut out = ADDED_SELECT.to_string();
    out.append(latest);
    out.append(ADDED_WHERE);
    out.append(latest);
    out.append(" IS NOT NULL AND ");
    out.append(latest);
    out.append(" >= ?))
                ORDER BY data.begin_snapshot");
    out
}

pub const DELETES_SELECT: &'static str = "
WITH current_delete AS (
    SELECT
        ddf.data_file_id,
        ddf.begin_snapshot,
        ddf.path,
        ddf.path_is_relative,
        ddf.file_size_bytes,
        ddf.footer_size,
        ddf.encryption_key
    FROM ducklake_delete_file ddf
    WHERE ddf.table_id = ?
      AND ddf.begin_snapshot <= ?
      AND (ddf.begin_snapshot >= ?
           OR (";

pub const DELETES_REST: &'static str = " >= ?))
),

data_files AS (
    SELECT df.*
    FROM ducklake_data_file df
    WHERE df.table_id = ?
)

-- Part 1: Incremental deletes
SELECT
    data.path,
    data.path_is_relative,
    data.file_size_bytes,
    data.footer_size,
    data.row_id_start,
    data.record_count,
    data.mapping_id,
    current_delete.path,
    current_delete.path_is_relative,
    current_delete.file_size_bytes,
    current_delete.footer_size,
    prev.path,
    prev.path_is_relative,
    prev.file_size_bytes,
    prev.footer_size,
    current_delete.begin_snapshot
FROM current_delete
JOIN data_files data USING (data_file_id)
LEFT JOIN LATERAL (
    SELECT
        ddf.path,
        ddf.path_is_relative,
        ddf.file_size_bytes,
        ddf.footer_size
    FROM ducklake_delete_file ddf
    WHERE ddf.table_id = ?
      AND ddf.data_file_id = current_delete.data_file_id
      AND ddf.begin_snapshot < current_delete.begin_snapshot
    ORDER BY ddf.begin_snapshot DESC
    LIMIT 1
) prev ON true

UNION ALL

-- Part 2: Full file deletes
SELECT
    data.path,
    data.path_is_relative,
    data.file_size_bytes,
    data.footer_size,
    data.row_id_start,
    data.record_count,
    data.mapping_id,
    NULL,
    NULL,
    NULL,
    NULL,
    prev.path,
    prev.path_is_relative,
    prev.file_size_bytes,
    prev.footer_size,
    data.end_snapshot
FROM ducklake_data_file data
LEFT JOIN LATERAL (
    SELECT
        ddf.path,
        ddf.path_is_relative,
        ddf.file_size_bytes,
        ddf.footer_size
    FROM ducklake_delete_file ddf
    WHERE ddf.table_id = ?
      AND ddf.data_file_id = data.data_file_id
      AND ddf.begin_snapshot < data.end_snapshot
    ORDER BY ddf.begin_snapshot DESC
    LIMIT 1
) prev ON true
WHERE data.table_id = ?
  AND data.end_snapshot >= ?
  AND data.end_snapshot <= ?
";

/// The deletes added between two snapshots: delete files, and data files that
/// were removed whole.
pub fn added_deletes_sql(capabilities: &SchemaCapabilities) -> (out: String)
    ensures
        out@ == ({
            let latest = column_or_null(capabilities.delete_file_partial_max, "ddf.partial_max"@);
            DELETES_SELECT@ + latest + " IS NOT NULL AND "@ + latest + DELETES_REST@
        }),
{
    let latest = present_or_null(capabilities.delete_file_partial_max, "ddf.partial_max");
    let mut out = DELETES_SELECT.to_string();
    out.append(latest);
    out.append(" IS NOT NULL AND ");
    out.append(latest);
    out.append(DELETES_REST);
    out
}

// ---------------------------------------------------------------------------
// Inlined rows
// ---------------------------------------------------------------------------

pub const INLINED_WHERE: &'static str = " WHERE ? >= begin_snapshot AND (? < end_snapshot OR end_snapshot IS NULL) ORDER BY row_id";

/// The inlined rows of `table` that a snapshot shows. `projections` says how each
/// of the `columns` is read; one that the table lacks reads as `NULL`.
pub fn inlined_data_sql(
    table: &str,
    columns: &Vec<String>,
    projections: &Vec<String>,
    present: &Vec<String>,
) -> (out: String)
    requires
        projections@.len() == columns@.len(),
    ensures
        out@ == "SELECT "@
        + projected_text(views(columns@), views(projections@), views(present@), "NULL"@)
        + " FROM "@ + quoted(table@, '`') + INLINED_WHERE@,
{
    let projected = project_columns(columns, projections, present, "NULL");
    let name = quote_ident(table);
    let mut out = "SELECT ".to_string();
    out.append(projected.as_str());
    out.append(" FROM ");
    out.append(name.as_str());
    out.append(INLINED_WHERE);
    out
}

/// The inlined deletes that a snapshot shows, kept in `table`.
pub fn inlined_deletes_sql(table: &str) -> (out: String)
    ensures
        out@ == "SELECT file_id, row_id FROM "@ + quoted(table@, '`')
        + " WHERE begin_snapshot <= ? ORDER BY file_id, row_id"@,
{
    let name = quote_ident(table);
    let mut out = "SELECT file_id, row_id FROM ".to_string();
    out.append(name.as_str());
    out.append(" WHERE begin_snapshot <= ? ORDER BY file_id, row_id");
    out
}

/// A catalog that lacks a part is probed again, whichever part it is, and one that has
/// them all is not.
pub proof fn lemma_missing_part(capabilities: SchemaCapabilities)
    ensures
        !capabilities.has_all() <==> !capabilities.data_file_partial_max || !capabilities.delete_file_partial_max
            || !capabilities.inlined_data_tables
            || !capabilities.views,
{
}

} // verus!
