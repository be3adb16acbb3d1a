//! What the databases make of the expressions that statistics are compared by.
//!
//! A statistic is text, and a condition on it is text too: SQL. To say what a condition
//! does, an expression is given a spelling, which is the SQL, and a value, which is what
//! the database computes from a statistic. The laws here take the SQL that a dialect
//! writes, find the expression that it spells, and say how its value compares.

use vstd::prelude::*;

use crate::metadata_provider_sqlite::{
    sqlite_cast_text, timestamp_condition, without_offset, SQLITE_DATE_GLOB,
};
use crate::order::{lemma_text_order, text_order};
use crate::scan::{digits_value, is_digit, lemma_digits_of_nat, lemma_number_is_read_back};
use crate::text::{int_text, nat_text};
use crate::stats_encode::{is_date_text, is_timestamp_text, is_timestamptz_text};
use crate::types::DataType;

verus! {

// ---------------------------------------------------------------------------
// Values and their order
// ---------------------------------------------------------------------------

/// A value of a database. A real is kept as the text that spells it.
pub enum SqlValue {
    Null,
    Integer(int),
    Real(Seq<char>),
    Text(Seq<char>),
}

/// The sign of `a - b`.
pub open spec fn order_of(a: int, b: int) -> int {
    if a < b {
        -1
    } else if a > b {
        1
    } else {
        0
    }
}

/// How SQLite compares two values: a comparison with `NULL` is unknown, numbers come
/// before all text, and text is compared byte by byte.
pub open spec fn sqlite_order(a: SqlValue, b: SqlValue) -> Option<int> {
    match (a, b) {
        (SqlValue::Integer(x), SqlValue::Integer(y)) => Some(order_of(x, y)),
        (SqlValue::Text(x), SqlValue::Text(y)) => Some(text_order(x, y)),
        (SqlValue::Integer(_), SqlValue::Text(_)) => Some(-1),
        (SqlValue::Real(_), SqlValue::Text(_)) => Some(-1),
        (SqlValue::Text(_), SqlValue::Integer(_)) => Some(1),
        (SqlValue::Text(_), SqlValue::Real(_)) => Some(1),
        _ => None,
    }
}

// ---------------------------------------------------------------------------
// SQLite's expressions
// ---------------------------------------------------------------------------

/// An element of a pattern of `GLOB`.
pub enum GlobItem {
    /// Any run of characters.
    Run,
    /// Any one character.
    One,
    Digit,
    NotDigit,
    DigitOrMinus,
    Sign,
    Char(char),
}

/// How a pattern is spelled.
pub open spec fn glob_item_text(item: GlobItem) -> Seq<char> {
    match item {
        GlobItem::Run => seq!['*'],
        GlobItem::One => seq!['?'],
        GlobItem::Digit => seq!['[', '0', '-', '9', ']'],
        GlobItem::NotDigit => seq!['[', '^', '0', '-', '9', ']'],
        GlobItem::DigitOrMinus => seq!['[', '-', '0', '-', '9', ']'],
        GlobItem::Sign => seq!['[', '-', '+', ']'],
        GlobItem::Char(c) => seq![c],
    }
}

/// A pattern of `GLOB`: its elements, one behind the other.
pub enum Glob {
    End,
    Then(GlobItem, Box<Glob>),
}

/// How a pattern is spelled.
pub open spec fn glob_text(glob: Glob) -> Seq<char>
    decreases glob,
{
    match glob {
        Glob::End => Seq::empty(),
        Glob::Then(item, rest) => glob_item_text(item) + glob_text(*rest),
    }
}

/// Whether one character fits one element.
pub open spec fn glob_fits(item: GlobItem, c: char) -> bool {
    match item {
        GlobItem::Run => true,
        GlobItem::One => true,
        GlobItem::Digit => '0' <= c <= '9',
        GlobItem::NotDigit => !('0' <= c <= '9'),
        GlobItem::DigitOrMinus => '0' <= c <= '9' || c == '-',
        GlobItem::Sign => c == '-' || c == '+',
        GlobItem::Char(d) => c == d,
    }
}

/// Whether text matches a pattern from its first to its last character.
pub open spec fn glob_matches(glob: Glob, text: Seq<char>) -> bool
    decreases glob, text.len(),
{
    match glob {
        Glob::End => text.len() == 0,
        Glob::Then(item, rest) => if item is Run {
            glob_matches(*rest, text) || (text.len() > 0 && glob_matches(glob, text.skip(1)))
        } else {
            text.len() > 0 && glob_fits(item, text[0]) && glob_matches(*rest, text.skip(1))
        },
    }
}

/// An expression of SQLite on one statistic.
pub enum SqliteExpr {
    Statistic,
    Number(nat),
    Constant(Seq<char>),
    CastInteger(Box<SqliteExpr>),
    CastReal(Box<SqliteExpr>),
    CastText(Box<SqliteExpr>),
    Equals(Box<SqliteExpr>, Box<SqliteExpr>),
    Greater(Box<SqliteExpr>, Box<SqliteExpr>),
    OneOf(Box<SqliteExpr>, Seq<char>, Seq<char>),
    Like(Box<SqliteExpr>, Glob),
    Not(Box<SqliteExpr>),
    And(Box<SqliteExpr>, Box<SqliteExpr>),
    Or(Box<SqliteExpr>, Box<SqliteExpr>),
    Brackets(Box<SqliteExpr>),
    Case(Box<SqliteExpr>, Box<SqliteExpr>),
    Binary(Box<SqliteExpr>),
    Length(Box<SqliteExpr>),
    Plus(Box<SqliteExpr>, nat),
    Minus(Box<SqliteExpr>, nat),
    Instr(Box<SqliteExpr>, Seq<char>),
    /// What stands from a place on.
    Substr(Box<SqliteExpr>, Box<SqliteExpr>),
    /// So many characters from a place on.
    SubstrOf(Box<SqliteExpr>, Box<SqliteExpr>, Box<SqliteExpr>),
    Ltrim(Box<SqliteExpr>, Seq<char>),
    Rtrim(Box<SqliteExpr>, Seq<char>),
}

/// How an expression is spelled, with the statistic spelled `name`.
pub open spec fn sqlite_spelling(e: SqliteExpr, name: Seq<char>) -> Seq<char>
    decreases e,
{
    match e {
        SqliteExpr::Statistic => name,
        SqliteExpr::Number(n) => nat_text(n),
        SqliteExpr::Constant(text) => "'"@ + text + "'"@,
        SqliteExpr::CastInteger(a) => "CAST("@ + sqlite_spelling(*a, name) + " AS INTEGER)"@,
        SqliteExpr::CastReal(a) => "CAST("@ + sqlite_spelling(*a, name) + " AS REAL)"@,
        SqliteExpr::CastText(a) => "CAST("@ + sqlite_spelling(*a, name) + " AS TEXT)"@,
        SqliteExpr::Equals(a, b) => sqlite_spelling(*a, name) + " = "@ + sqlite_spelling(*b, name),
        SqliteExpr::Greater(a, b) => sqlite_spelling(*a, name) + " > "@ + sqlite_spelling(*b, name),
        SqliteExpr::OneOf(a, x, y) => sqlite_spelling(*a, name) + " IN ('"@ + x + "', '"@ + y
            + "')"@,
        SqliteExpr::Like(a, glob) => sqlite_spelling(*a, name) + " GLOB '"@ + glob_text(glob)
            + "'"@,
        SqliteExpr::Not(a) => "NOT ("@ + sqlite_spelling(*a, name) + ")"@,
        SqliteExpr::And(a, b) => sqlite_spelling(*a, name) + " AND "@ + sqlite_spelling(*b, name),
        SqliteExpr::Or(a, b) => sqlite_spelling(*a, name) + " OR "@ + sqlite_spelling(*b, name),
        SqliteExpr::Brackets(a) => "("@ + sqlite_spelling(*a, name) + ")"@,
        SqliteExpr::Case(a, b) => "CASE WHEN "@ + sqlite_spelling(*a, name) + " THEN "@
            + sqlite_spelling(*b, name) + " END"@,
        SqliteExpr::Binary(a) => sqlite_spelling(*a, name) + " COLLATE BINARY"@,
        SqliteExpr::Length(a) => "length("@ + sqlite_spelling(*a, name) + ")"@,
        SqliteExpr::Plus(a, n) => sqlite_spelling(*a, name) + " + "@ + nat_text(n),
        SqliteExpr::Minus(a, n) => sqlite_spelling(*a, name) + " - "@ + nat_text(n),
        SqliteExpr::Instr(a, text) => "instr("@ + sqlite_spelling(*a, name) + ", '"@ + text
            + "')"@,
        SqliteExpr::Substr(a, from) => "substr("@ + sqlite_spelling(*a, name) + ", "@
            + sqlite_spelling(*from, name) + ")"@,
        SqliteExpr::SubstrOf(a, from, count) => "substr("@ + sqlite_spelling(*a, name) + ", "@
            + sqlite_spelling(*from, name) + ", "@ + sqlite_spelling(*count, name) + ")"@,
        SqliteExpr::Ltrim(a, chars) => "ltrim("@ + sqlite_spelling(*a, name) + ", '"@ + chars
            + "')"@,
        SqliteExpr::Rtrim(a, chars) => "rtrim("@ + sqlite_spelling(*a, name) + ", '"@ + chars
            + "')"@,
    }
}

/// How many digits text starts with.
pub open spec fn leading_digits(text: Seq<char>) -> nat
    decreases text.len(),
{
    if text.len() > 0 && '0' <= text[0] <= '9' {
        1 + leading_digits(text.skip(1))
    } else {
        0
    }
}

/// The nearest integer of 64 bits.
pub open spec fn clamped(n: int) -> int {
    if n < i64::MIN {
        i64::MIN as int
    } else if n > i64::MAX {
        i64::MAX as int
    } else {
        n
    }
}

/// The integer that text starts with, which is what SQLite casts it to: `0` where it
/// starts with none, and the nearest of 64 bits where it is larger.
pub open spec fn integer_prefix(text: Seq<char>) -> int
    decreases text.len(),
{
    if text.len() > 0 && (text[0] == ' ' || '\t' <= text[0] <= '\r') {
        integer_prefix(text.skip(1))
    } else if text.len() > 0 && text[0] == '-' {
        clamped(-digits_value(text.skip(1).take(leading_digits(text.skip(1)) as int)))
    } else if text.len() > 0 && text[0] == '+' {
        clamped(digits_value(text.skip(1).take(leading_digits(text.skip(1)) as int)))
    } else {
        clamped(digits_value(text.take(leading_digits(text) as int)))
    }
}

/// Text without the leading characters that are in `chars`.
pub open spec fn ltrimmed(text: Seq<char>, chars: Seq<char>) -> Seq<char>
    decreases text.len(),
{
    if text.len() > 0 && chars.contains(text[0]) {
        ltrimmed(text.skip(1), chars)
    } else {
        text
    }
}

/// Text without the trailing characters that are in `chars`.
pub open spec fn rtrimmed(text: Seq<char>, chars: Seq<char>) -> Seq<char>
    decreases text.len(),
{
    if text.len() > 0 && chars.contains(text.last()) {
        rtrimmed(text.drop_last(), chars)
    } else {
        text
    }
}

/// `count` characters of text from the `from`th on, where the first is the first.
pub open spec fn substring(text: Seq<char>, from: int, count: int) -> Seq<char> {
    if from < 1 || from > text.len() || count <= 0 {
        Seq::empty()
    } else if from - 1 + count >= text.len() {
        text.skip(from - 1)
    } else {
        text.subrange(from - 1, from - 1 + count)
    }
}

/// Where the first `needle` of one character stands in text, counted from one; `0` where
/// there is none.
pub open spec fn place_of(text: Seq<char>, needle: char) -> int
    decreases text.len(),
{
    if text.len() == 0 {
        0
    } else if text[0] == needle {
        1
    } else {
        let later = place_of(text.skip(1), needle);
        if later == 0 {
            0
        } else {
            later + 1
        }
    }
}

/// A truth value, which SQLite has as `1` and `0`.
pub open spec fn truth(holds: bool) -> SqlValue {
    SqlValue::Integer(
        if holds {
            1
        } else {
            0
        },
    )
}

/// Whether a condition holds, which `NULL` does not.
pub open spec fn holds(value: SqlValue) -> bool {
    value matches SqlValue::Integer(n) && n != 0
}

/// The value of an expression, on a statistic that is this text.
pub open spec fn sqlite_value(e: SqliteExpr, statistic: Seq<char>) -> SqlValue
    decreases e,
{
    match e {
        SqliteExpr::Statistic => SqlValue::Text(statistic),
        SqliteExpr::Number(n) => SqlValue::Integer(n as int),
        SqliteExpr::Constant(text) => SqlValue::Text(text),
        SqliteExpr::CastInteger(a) => match sqlite_value(*a, statistic) {
            SqlValue::Text(text) => SqlValue::Integer(integer_prefix(text)),
            other => other,
        },
        SqliteExpr::CastReal(a) => match sqlite_value(*a, statistic) {
            SqlValue::Text(text) => SqlValue::Real(text),
            other => other,
        },
        SqliteExpr::CastText(a) => match sqlite_value(*a, statistic) {
            SqlValue::Integer(n) => SqlValue::Text(int_text(n)),
            other => other,
        },
        SqliteExpr::Equals(a, b) => match sqlite_order(
            sqlite_value(*a, statistic),
            sqlite_value(*b, statistic),
        ) {
            Some(order) => truth(order == 0),
            None => SqlValue::Null,
        },
        SqliteExpr::Greater(a, b) => match sqlite_order(
            sqlite_value(*a, statistic),
            sqlite_value(*b, statistic),
        ) {
            Some(order) => truth(order > 0),
            None => SqlValue::Null,
        },
        SqliteExpr::OneOf(a, x, y) => match sqlite_value(*a, statistic) {
            SqlValue::Text(text) => truth(text == x || text == y),
            _ => SqlValue::Null,
        },
        SqliteExpr::Like(a, glob) => match sqlite_value(*a, statistic) {
            SqlValue::Text(text) => truth(glob_matches(glob, text)),
            _ => SqlValue::Null,
        },
        SqliteExpr::Not(a) => match sqlite_value(*a, statistic) {
            SqlValue::Integer(n) => truth(n == 0),
            _ => SqlValue::Null,
        },
        SqliteExpr::And(a, b) => truth(
            holds(sqlite_value(*a, statistic)) && holds(sqlite_value(*b, statistic)),
        ),
        SqliteExpr::Or(a, b) => truth(
            holds(sqlite_value(*a, statistic)) || holds(sqlite_value(*b, statistic)),
        ),
        SqliteExpr::Brackets(a) => sqlite_value(*a, statistic),
        SqliteExpr::Case(a, b) => if holds(sqlite_value(*a, statistic)) {
            sqlite_value(*b, statistic)
        } else {
            SqlValue::Null
        },
        SqliteExpr::Binary(a) => sqlite_value(*a, statistic),
        SqliteExpr::Length(a) => match sqlite_value(*a, statistic) {
            SqlValue::Text(text) => SqlValue::Integer(text.len() as int),
            _ => SqlValue::Null,
        },
        SqliteExpr::Plus(a, n) => match sqlite_value(*a, statistic) {
            SqlValue::Integer(m) => SqlValue::Integer(m + n),
            _ => SqlValue::Null,
        },
        SqliteExpr::Minus(a, n) => match sqlite_value(*a, statistic) {
            SqlValue::Integer(m) => SqlValue::Integer(m - n),
            _ => SqlValue::Null,
        },
        SqliteExpr::Instr(a, needle) => match sqlite_value(*a, statistic) {
            SqlValue::Text(text) => SqlValue::Integer(place_of(text, needle[0])),
            _ => SqlValue::Null,
        },
        SqliteExpr::Substr(a, from) => match (
            sqlite_value(*a, statistic),
            sqlite_value(*from, statistic),
        ) {
            (SqlValue::Text(text), SqlValue::Integer(n)) => SqlValue::Text(
                substring(text, n, text.len() as int),
            ),
            _ => SqlValue::Null,
        },
        SqliteExpr::SubstrOf(a, from, count) => match (
            sqlite_value(*a, statistic),
            sqlite_value(*from, statistic),
            sqlite_value(*count, statistic),
        ) {
            (SqlValue::Text(text), SqlValue::Integer(n), SqlValue::Integer(m)) => SqlValue::Text(
                substring(text, n, m),
            ),
            _ => SqlValue::Null,
        },
        SqliteExpr::Ltrim(a, chars) => match sqlite_value(*a, statistic) {
            SqlValue::Text(text) => SqlValue::Text(ltrimmed(text, chars)),
            _ => SqlValue::Null,
        },
        SqliteExpr::Rtrim(a, chars) => match sqlite_value(*a, statistic) {
            SqlValue::Text(text) => SqlValue::Text(rtrimmed(text, chars)),
            _ => SqlValue::Null,
        },
    }
}

/// Whether an expression is how SQLite reads `sql`, whatever the statistic is called.
pub open spec fn sqlite_reads(e: SqliteExpr, name: Seq<char>, sql: Seq<char>) -> bool {
    sqlite_spelling(e, name) == sql
}

// ---------------------------------------------------------------------------
// Integers in SQLite
// ---------------------------------------------------------------------------

proof fn lemma_leading_digits(text: Seq<char>)
    requires
        forall|i: int| 0 <= i < text.len() ==> is_digit(#[trigger] text[i]),
    ensures
        leading_digits(text) == text.len(),
    decreases text.len(),
{
    if text.len() > 0 {
        assert forall|i: int| 0 <= i < text.skip(1).len() implies is_digit(
            #[trigger] text.skip(1)[i],
        ) by {
            assert(text.skip(1)[i] == text[i + 1]);
        }
        lemma_leading_digits(text.skip(1));
        assert(is_digit(text[0]));
    }
}

/// The text of an integer of 64 bits starts with that integer.
pub proof fn lemma_integer_prefix(n: int)
    requires
        i64::MIN <= n <= i64::MAX,
    ensures
        integer_prefix(int_text(n)) == n,
{
    let text = int_text(n);
    if n < 0 {
        let digits = nat_text((-n) as nat);
        lemma_digits_of_nat((-n) as nat);
        lemma_leading_digits(digits);
        assert(text.skip(1) =~= digits);
        assert(digits.take(digits.len() as int) =~= digits);
    } else {
        lemma_digits_of_nat(n as nat);
        lemma_leading_digits(text);
        assert(is_digit(text[0]));
        assert(text.take(text.len() as int) =~= text);
    }
}

/// The expression that a bound of an integer column is compared as.
pub open spec fn sqlite_integer_bound() -> SqliteExpr {
    let integer = SqliteExpr::CastInteger(Box::new(SqliteExpr::Statistic));
    SqliteExpr::Case(
        Box::new(
            SqliteExpr::Equals(
                Box::new(SqliteExpr::Statistic),
                Box::new(SqliteExpr::CastText(Box::new(integer))),
            ),
        ),
        Box::new(integer),
    )
}

proof fn lemma_sqlite_integer_spelling(name: Seq<char>)
    ensures
        sqlite_spelling(sqlite_integer_bound(), name) == "CASE WHEN "@ + name
            + " = CAST(CAST("@ + name + " AS INTEGER) AS TEXT) THEN CAST("@ + name
            + " AS INTEGER) END"@,
{
    reveal_with_fuel(sqlite_spelling, 6);
    reveal_strlit("CASE WHEN ");
    reveal_strlit(" = CAST(CAST(");
    reveal_strlit(" AS INTEGER) AS TEXT) THEN CAST(");
    reveal_strlit(" AS INTEGER) END");
    reveal_strlit(" = ");
    reveal_strlit("CAST(");
    reveal_strlit(" AS INTEGER)");
    reveal_strlit(" AS TEXT)");
    reveal_strlit(" THEN ");
    reveal_strlit(" END");
    let integer = "CAST("@ + name + " AS INTEGER)"@;
    let whole = "CASE WHEN "@ + (name + " = "@ + ("CAST("@ + integer + " AS TEXT)"@)) + " THEN "@
        + integer + " END"@;
    assert(sqlite_spelling(sqlite_integer_bound(), name) == whole);
    assert(whole =~= "CASE WHEN "@ + name + " = CAST(CAST("@ + name
        + " AS INTEGER) AS TEXT) THEN CAST("@ + name + " AS INTEGER) END"@);
}

/// A bound of an integer column is compared as the integer that it is: for every
/// integer type, every statistic that is the text of an integer and every constant, SQLite
/// orders the two as the integers are ordered. A statistic that is no such text is
/// `NULL`, and a comparison with it is unknown, so no file is left out for it.
#[verifier::spinoff_prover]
pub proof fn lemma_sqlite_integer_bounds(
    name: Seq<char>,
    constant: Seq<char>,
    data_type: DataType,
)
    requires
        data_type is Int8 || data_type is Int16 || data_type is Int32 || data_type is Int64
            || data_type is UInt8 || data_type is UInt16 || data_type is UInt32
            || data_type is UInt64,
    ensures
        sqlite_cast_text(name, constant, data_type) matches Some(sql) && exists|e: SqliteExpr|
            #![trigger sqlite_reads(e, name, sql)]
            sqlite_reads(e, name, sql) && (forall|n: int, c: int|
                #![trigger sqlite_order(
                    sqlite_value(e, int_text(n)),
                    SqlValue::Integer(c),
                )]
                i64::MIN <= n <= i64::MAX ==> sqlite_order(
                    sqlite_value(e, int_text(n)),
                    SqlValue::Integer(c),
                ) == Some(order_of(n, c))) && (forall|text: Seq<char>|
                (forall|n: int|
                    i64::MIN <= n <= i64::MAX ==> text != #[trigger] int_text(n))
                    ==> #[trigger] sqlite_value(e, text) is Null),
{
    let e = sqlite_integer_bound();
    lemma_sqlite_integer_spelling(name);
    let sql = sqlite_cast_text(name, constant, data_type)->0;
    assert(sqlite_reads(e, name, sql));
    assert forall|n: int, c: int|
        #![trigger sqlite_order(sqlite_value(e, int_text(n)), SqlValue::Integer(c))]
        i64::MIN <= n <= i64::MAX implies sqlite_order(
        sqlite_value(e, int_text(n)),
        SqlValue::Integer(c),
    ) == Some(order_of(n, c)) by {
        reveal_with_fuel(sqlite_value, 6);
        lemma_integer_prefix(n);
        lemma_text_order(int_text(n), int_text(n));
    }
    assert forall|text: Seq<char>|
        (forall|n: int|
            i64::MIN <= n <= i64::MAX ==> text != #[trigger] int_text(
                n,
            )) implies #[trigger] sqlite_value(e, text) is Null by {
        reveal_with_fuel(sqlite_value, 6);
        let m = integer_prefix(text);
        lemma_prefix_fits(text);
        lemma_text_order(text, int_text(m));
        assert(text != int_text(m));
    }
}

proof fn lemma_prefix_fits(text: Seq<char>)
    ensures
        i64::MIN <= integer_prefix(text) <= i64::MAX,
    decreases text.len(),
{
    if text.len() > 0 {
        lemma_prefix_fits(text.skip(1));
    }
}


// ---------------------------------------------------------------------------
// Booleans in SQLite
// ---------------------------------------------------------------------------

/// A statistic where a condition holds, `NULL` elsewhere, compared byte by byte.
pub open spec fn sqlite_guarded(condition: SqliteExpr) -> SqliteExpr {
    SqliteExpr::Binary(
        Box::new(SqliteExpr::Case(Box::new(condition), Box::new(SqliteExpr::Statistic))),
    )
}

proof fn lemma_sqlite_guarded(condition: SqliteExpr, name: Seq<char>, statistic: Seq<char>)
    ensures
        sqlite_spelling(sqlite_guarded(condition), name)
            == crate::metadata_provider_sqlite::guarded_text(
            name,
            sqlite_spelling(condition, name),
        ),
        sqlite_value(sqlite_guarded(condition), statistic) == if holds(
            sqlite_value(condition, statistic),
        ) {
            SqlValue::Text(statistic)
        } else {
            SqlValue::Null
        },
{
    reveal_with_fuel(sqlite_spelling, 3);
    reveal_with_fuel(sqlite_value, 3);
    reveal_strlit(" END");
    reveal_strlit(" COLLATE BINARY");
    reveal_strlit(" END COLLATE BINARY");
    let c = sqlite_spelling(condition, name);
    let front = "CASE WHEN "@ + c + " THEN "@ + name;
    assert((front + " END"@) + " COLLATE BINARY"@ =~= front + " END COLLATE BINARY"@);
}

/// A bound of a boolean column is compared as the text `true` or `false`, and one that
/// is neither is `NULL`.
pub proof fn lemma_sqlite_boolean_bounds(name: Seq<char>, constant: Seq<char>)
    ensures
        sqlite_cast_text(name, constant, DataType::Boolean) matches Some(sql) && exists|
            e: SqliteExpr,
        |
            #![trigger sqlite_reads(e, name, sql)]
            sqlite_reads(e, name, sql) && (forall|text: Seq<char>| #[trigger]
                sqlite_value(e, text) == if text == "true"@ || text == "false"@ {
                    SqlValue::Text(text)
                } else {
                    SqlValue::Null
                }),
{
    let condition = SqliteExpr::OneOf(
        Box::new(SqliteExpr::Binary(Box::new(SqliteExpr::Statistic))),
        "true"@,
        "false"@,
    );
    let e = sqlite_guarded(condition);
    reveal_with_fuel(sqlite_spelling, 3);
    reveal_with_fuel(sqlite_value, 3);
    reveal_strlit(" IN ('");
    reveal_strlit("true");
    reveal_strlit("', '");
    reveal_strlit("false");
    reveal_strlit("')");
    reveal_strlit(" IN ('true', 'false')");
    let x = name + " COLLATE BINARY"@;
    assert(x + " IN ('"@ + "true"@ + "', '"@ + "false"@ + "')"@ =~= x + " IN ('true', 'false')"@);
    lemma_sqlite_guarded(condition, name, Seq::empty());
    let sql = sqlite_cast_text(name, constant, DataType::Boolean)->0;
    assert(sqlite_reads(e, name, sql));
    assert forall|text: Seq<char>| #[trigger] sqlite_value(e, text) == if text == "true"@ || text
        == "false"@ {
        SqlValue::Text(text)
    } else {
        SqlValue::Null
    } by {
        lemma_sqlite_guarded(condition, name, text);
    }
}

// ---------------------------------------------------------------------------
// Dates and timestamps in SQLite
// ---------------------------------------------------------------------------

/// A digit, and then a pattern.
pub open spec fn digit(rest: Glob) -> Glob {
    Glob::Then(GlobItem::Digit, Box::new(rest))
}

/// A character, and then a pattern.
pub open spec fn one(c: char, rest: Glob) -> Glob {
    Glob::Then(GlobItem::Char(c), Box::new(rest))
}

/// The pattern of a date, and then a pattern.
pub open spec fn date_glob(rest: Glob) -> Glob {
    digit(
        digit(
            digit(
                digit(one('-', digit(digit(one('-', digit(digit(rest))))))),
            ),
        ),
    )
}

/// The pattern of a time behind a date, and then a pattern.
pub open spec fn time_glob(rest: Glob) -> Glob {
    one(
        ' ',
        digit(digit(one(':', digit(digit(one(':', digit(digit(rest)))))))),
    )
}

/// Any run of characters, and then a pattern.
pub open spec fn run(rest: Glob) -> Glob {
    Glob::Then(GlobItem::Run, Box::new(rest))
}

pub(crate) proof fn lemma_glob_step(item: GlobItem, rest: Glob, text: Seq<char>, i: int)
    requires
        0 <= i <= text.len(),
        !(item is Run),
    ensures
        glob_matches(Glob::Then(item, Box::new(rest)), text.skip(i)) <==> i < text.len()
            && glob_fits(item, text[i]) && glob_matches(rest, text.skip(i + 1)),
{
    if i < text.len() {
        assert(text.skip(i)[0] == text[i]);
        assert(text.skip(i).skip(1) =~= text.skip(i + 1));
    }
}

/// Whether text has this many characters from `i` on, of a date.
spec fn has_date_at(text: Seq<char>) -> bool {
    &&& text.len() >= 10
    &&& is_digit(text[0]) && is_digit(text[1]) && is_digit(text[2]) && is_digit(text[3])
    &&& text[4] == '-' && is_digit(text[5]) && is_digit(text[6])
    &&& text[7] == '-' && is_digit(text[8]) && is_digit(text[9])
}

spec fn has_time_at(text: Seq<char>) -> bool {
    &&& text.len() >= 19
    &&& text[10] == ' ' && is_digit(text[11]) && is_digit(text[12])
    &&& text[13] == ':' && is_digit(text[14]) && is_digit(text[15])
    &&& text[16] == ':' && is_digit(text[17]) && is_digit(text[18])
}

proof fn lemma_date_glob(rest: Glob, text: Seq<char>)
    ensures
        glob_matches(date_glob(rest), text) <==> has_date_at(text) && glob_matches(
            rest,
            text.skip(10),
        ),
{
    assert(text.skip(0) =~= text);
    let g9 = digit(rest);
    let g8 = digit(g9);
    let g7 = one('-', g8);
    let g6 = digit(g7);
    let g5 = digit(g6);
    let g4 = one('-', g5);
    let g3 = digit(g4);
    let g2 = digit(g3);
    let g1 = digit(g2);
    if text.len() >= 10 {
        lemma_glob_step(GlobItem::Digit, g1, text, 0);
        lemma_glob_step(GlobItem::Digit, g2, text, 1);
        lemma_glob_step(GlobItem::Digit, g3, text, 2);
        lemma_glob_step(GlobItem::Digit, g4, text, 3);
        lemma_glob_step(GlobItem::Char('-'), g5, text, 4);
        lemma_glob_step(GlobItem::Digit, g6, text, 5);
        lemma_glob_step(GlobItem::Digit, g7, text, 6);
        lemma_glob_step(GlobItem::Char('-'), g8, text, 7);
        lemma_glob_step(GlobItem::Digit, g9, text, 8);
        lemma_glob_step(GlobItem::Digit, rest, text, 9);
    } else {
        reveal_with_fuel(glob_length, 11);
        lemma_glob_length(date_glob(rest), text, 10);
    }
}

/// How many characters a pattern asks for in front of its first run.
spec fn glob_length(glob: Glob) -> nat
    decreases glob,
{
    match glob {
        Glob::End => 0,
        Glob::Then(item, rest) => if item is Run {
            0
        } else {
            1 + glob_length(*rest)
        },
    }
}

proof fn lemma_glob_length(glob: Glob, text: Seq<char>, n: nat)
    requires
        text.len() < n <= glob_length(glob),
    ensures
        !glob_matches(glob, text),
    decreases glob,
{
    if let Glob::Then(item, rest) = glob {
        if text.len() > 0 && n > 1 {
            lemma_glob_length(*rest, text.skip(1), (n - 1) as nat);
        }
    }
}

proof fn lemma_time_glob(rest: Glob, text: Seq<char>)
    requires
        text.len() >= 10,
    ensures
        glob_matches(time_glob(rest), text.skip(10)) <==> has_time_at(text) && glob_matches(
            rest,
            text.skip(19),
        ),
{
    let g8 = digit(rest);
    let g7 = digit(g8);
    let g6 = one(':', g7);
    let g5 = digit(g6);
    let g4 = digit(g5);
    let g3 = one(':', g4);
    let g2 = digit(g3);
    let g1 = digit(g2);
    if text.len() >= 19 {
        lemma_glob_step(GlobItem::Char(' '), g1, text, 10);
        lemma_glob_step(GlobItem::Digit, g2, text, 11);
        lemma_glob_step(GlobItem::Digit, g3, text, 12);
        lemma_glob_step(GlobItem::Char(':'), g4, text, 13);
        lemma_glob_step(GlobItem::Digit, g5, text, 14);
        lemma_glob_step(GlobItem::Digit, g6, text, 15);
        lemma_glob_step(GlobItem::Char(':'), g7, text, 16);
        lemma_glob_step(GlobItem::Digit, g8, text, 17);
        lemma_glob_step(GlobItem::Digit, rest, text, 18);
    } else {
        reveal_with_fuel(glob_length, 10);
        lemma_glob_length(time_glob(rest), text.skip(10), 9);
    }
}

proof fn lemma_date_glob_text(rest: Glob)
    ensures
        glob_text(date_glob(rest)) == SQLITE_DATE_GLOB@ + glob_text(rest),
{
    reveal_with_fuel(glob_text, 12);
    reveal_strlit("[0-9][0-9][0-9][0-9]-[0-9][0-9]-[0-9][0-9]");
    assert(glob_text(date_glob(rest)) =~= SQLITE_DATE_GLOB@ + glob_text(rest));
}

/// The text of a date, as it is spelled.
proof fn lemma_date_shape(text: Seq<char>)
    ensures
        is_date_text(text) <==> text.len() == 10 && has_date_at(text),
{
    reveal_strlit("NNNN-NN-NN");
    let shape = "NNNN-NN-NN"@;
    if is_date_text(text) {
        assert(is_digit(text[0]) && is_digit(text[1]) && is_digit(text[2]) && is_digit(text[3]));
        assert(shape[4] == '-' && text[4] == shape[4]);
        assert(is_digit(text[5]) && is_digit(text[6]));
        assert(shape[7] == '-' && text[7] == shape[7]);
        assert(is_digit(text[8]) && is_digit(text[9]));
    }
    if text.len() == 10 && has_date_at(text) {
        assert forall|i: int| 0 <= i < shape.len() implies if shape[i] == 'N' {
            is_digit(#[trigger] text[i])
        } else {
            text[i] == shape[i]
        } by {
            if i == 4 || i == 7 {
            } else if i < 4 {
            } else if i < 7 {
            } else {
            }
        }
    }
}

/// A bound of a date column is compared as text, and only where it is a date of ten
/// characters: a year of four digits, a month and a day of two. Anything else is `NULL`.
pub proof fn lemma_sqlite_date_bounds(name: Seq<char>, constant: Seq<char>)
    requires
        is_date_text(constant),
    ensures
        sqlite_cast_text(name, constant, DataType::Date32) matches Some(sql) && exists|
            e: SqliteExpr,
        |
            #![trigger sqlite_reads(e, name, sql)]
            sqlite_reads(e, name, sql) && (forall|text: Seq<char>| #[trigger]
                sqlite_value(e, text) == if is_date_text(text) {
                    SqlValue::Text(text)
                } else {
                    SqlValue::Null
                }),
{
    let glob = date_glob(Glob::End);
    let condition = SqliteExpr::Like(Box::new(SqliteExpr::Statistic), glob);
    let e = sqlite_guarded(condition);
    reveal_with_fuel(sqlite_spelling, 2);
    reveal_with_fuel(sqlite_value, 2);
    lemma_date_glob_text(Glob::End);
    assert(glob_text(glob) =~= SQLITE_DATE_GLOB@);
    lemma_sqlite_guarded(condition, name, Seq::empty());
    let sql = sqlite_cast_text(name, constant, DataType::Date32)->0;
    assert(sqlite_reads(e, name, sql));
    assert forall|text: Seq<char>| #[trigger] sqlite_value(e, text) == if is_date_text(text) {
        SqlValue::Text(text)
    } else {
        SqlValue::Null
    } by {
        lemma_sqlite_guarded(condition, name, text);
        lemma_date_glob(Glob::End, text);
        lemma_date_shape(text);
    }
}


/// A constant without characters.
pub open spec fn no_text() -> SqliteExpr {
    SqliteExpr::Constant(Seq::empty())
}

/// What stands from the `n`th character on.
pub open spec fn from_place(x: SqliteExpr, n: nat) -> SqliteExpr {
    SqliteExpr::Substr(Box::new(x), Box::new(SqliteExpr::Number(n)))
}

/// The condition that an expression is a timestamp, as SQLite tests it.
pub open spec fn sqlite_is_timestamp(x: SqliteExpr) -> SqliteExpr {
    SqliteExpr::And(
        Box::new(SqliteExpr::Like(Box::new(x), date_glob(time_glob(run(Glob::End))))),
        Box::new(
            SqliteExpr::Brackets(
                Box::new(
                    SqliteExpr::Or(
                        Box::new(
                            SqliteExpr::Equals(Box::new(from_place(x, 20)), Box::new(no_text())),
                        ),
                        Box::new(SqliteExpr::Brackets(Box::new(sqlite_is_fraction(x)))),
                    ),
                ),
            ),
        ),
    )
}

/// The condition that what follows the seconds is a fraction that does not end in `0`.
pub open spec fn sqlite_is_fraction(x: SqliteExpr) -> SqliteExpr {
    SqliteExpr::And(
        Box::new(
            SqliteExpr::And(
                Box::new(
                    SqliteExpr::Like(
                        Box::new(from_place(x, 20)),
                        one('.', digit(run(Glob::End))),
                    ),
                ),
                Box::new(
                    SqliteExpr::Equals(
                        Box::new(
                            SqliteExpr::Ltrim(Box::new(from_place(x, 21)), "0123456789"@),
                        ),
                        Box::new(no_text()),
                    ),
                ),
            ),
        ),
        Box::new(
            SqliteExpr::Not(
                Box::new(SqliteExpr::Like(Box::new(x), run(one('0', Glob::End)))),
            ),
        ),
    )
}

proof fn lemma_sqlite_place_spelling(x: SqliteExpr, name: Seq<char>)
    ensures
        sqlite_spelling(from_place(x, 20), name) == "substr("@ + sqlite_spelling(x, name)
            + ", 20)"@,
        sqlite_spelling(from_place(x, 21), name) == "substr("@ + sqlite_spelling(x, name)
            + ", 21)"@,
        sqlite_spelling(no_text(), name) == "''"@,
{
    reveal_with_fuel(sqlite_spelling, 2);
    reveal_with_fuel(nat_text, 3);
    reveal_strlit(", ");
    reveal_strlit(")");
    reveal_strlit(", 20)");
    reveal_strlit(", 21)");
    reveal_strlit("'");
    reveal_strlit("''");
    let front = "substr("@ + sqlite_spelling(x, name);
    assert(nat_text(20) =~= seq!['2', '0']);
    assert(nat_text(21) =~= seq!['2', '1']);
    assert(front + ", "@ + nat_text(20) + ")"@ =~= front + ", 20)"@);
    assert(front + ", "@ + nat_text(21) + ")"@ =~= front + ", 21)"@);
    assert("'"@ + Seq::empty() + "'"@ =~= "''"@);
}

proof fn lemma_fraction_joints()
    ensures
        ", 20)"@ + " GLOB '"@ + glob_text(one('.', digit(run(Glob::End)))) + "'"@ + " AND "@
            + "ltrim("@ + "substr("@ == ", 20) GLOB '.[0-9]*' AND ltrim(substr("@,
        ", 21)"@ + ", '"@ + "0123456789"@ + "')"@ + " = "@ + "''"@ + " AND "@ + "NOT ("@
            == ", 21), '0123456789') = '' AND NOT ("@,
        " GLOB '"@ + glob_text(run(one('0', Glob::End))) + "'"@ + ")"@ == " GLOB '*0')"@,
{
    reveal_with_fuel(glob_text, 4);
    reveal_strlit(" GLOB '");
    reveal_strlit("'");
    reveal_strlit("''");
    reveal_strlit(" AND ");
    reveal_strlit("ltrim(");
    reveal_strlit(", '");
    reveal_strlit("')");
    reveal_strlit(" = ");
    reveal_strlit("NOT (");
    reveal_strlit(")");
    reveal_strlit("0123456789");
    reveal_strlit(", 20)");
    reveal_strlit(", 21)");
    reveal_strlit("substr(");
    reveal_strlit(", 20) GLOB '.[0-9]*' AND ltrim(substr(");
    reveal_strlit(", 21), '0123456789') = '' AND NOT (");
    reveal_strlit(" GLOB '*0')");
    assert(", 20)"@ + " GLOB '"@ + glob_text(one('.', digit(run(Glob::End)))) + "'"@ + " AND "@
        + "ltrim("@ + "substr("@ =~= ", 20) GLOB '.[0-9]*' AND ltrim(substr("@);
    assert(", 21)"@ + ", '"@ + "0123456789"@ + "')"@ + " = "@ + "''"@ + " AND "@ + "NOT ("@
        =~= ", 21), '0123456789') = '' AND NOT ("@);
    assert(" GLOB '"@ + glob_text(run(one('0', Glob::End))) + "'"@ + ")"@ =~= " GLOB '*0')"@);
}

/// Sums of text may be bracketed in any way.
#[verifier::spinoff_prover]
proof fn lemma_fraction_sum(
    t: Seq<char>,
    sub: Seq<char>,
    place: Seq<char>,
    next: Seq<char>,
    like: Seq<char>,
    glob: Seq<char>,
    quote: Seq<char>,
    and: Seq<char>,
    trim: Seq<char>,
    comma: Seq<char>,
    digits: Seq<char>,
    close: Seq<char>,
    eq: Seq<char>,
    none: Seq<char>,
    not: Seq<char>,
    zero: Seq<char>,
    end: Seq<char>,
)
    ensures
        ((sub + t + place) + like + glob + quote) + and + ((trim + (sub + t + next) + comma + digits
            + close) + eq + none) + and + (not + (t + like + zero + quote) + end) == sub + t + (place
            + like + glob + quote + and + trim + sub) + t + (next + comma + digits + close + eq
            + none + and + not) + t + (like + zero + quote + end),
{
    let a = sub + t + place + like + glob + quote + and + trim + sub + t;
    let b = next + comma + digits + close + eq + none + and + not + t;
    let c = like + zero + quote + end;
    let first = ((sub + t + place) + like + glob + quote) + and;
    let second = (trim + (sub + t + next) + comma + digits + close) + eq + none;
    assert(first + second =~= sub + t + place + like + glob + quote + and + trim + sub + t + (next
        + comma + digits + close + eq + none));
    let third = not + (t + like + zero + quote) + end;
    assert(first + second + and + third =~= a + b + c);
    assert(a =~= sub + t + (place + like + glob + quote + and + trim + sub) + t);
    assert(b =~= (next + comma + digits + close + eq + none + and + not) + t);
    let right = sub + t + (place + like + glob + quote + and + trim + sub) + t + (next + comma
        + digits + close + eq + none + and + not) + t + (like + zero + quote + end);
    assert(right =~= a + b + c);
}

proof fn lemma_sqlite_fraction_spelling(x: SqliteExpr, name: Seq<char>)
    ensures
        ({
            let t = sqlite_spelling(x, name);
            sqlite_spelling(sqlite_is_fraction(x), name) == "substr("@ + t
                + ", 20) GLOB '.[0-9]*' AND ltrim(substr("@ + t
                + ", 21), '0123456789') = '' AND NOT ("@ + t + " GLOB '*0')"@
        }),
{
    let t = sqlite_spelling(x, name);
    lemma_sqlite_place_spelling(x, name);
    lemma_fraction_joints();
    let glob = glob_text(one('.', digit(run(Glob::End))));
    let zero = glob_text(run(one('0', Glob::End)));
    let first = ("substr("@ + t + ", 20)"@) + " GLOB '"@ + glob + "'"@;
    let second = ("ltrim("@ + ("substr("@ + t + ", 21)"@) + ", '"@ + "0123456789"@ + "')"@) + " = "@
        + "''"@;
    let third = "NOT ("@ + (t + " GLOB '"@ + zero + "'"@) + ")"@;
    assert(sqlite_spelling(sqlite_is_fraction(x), name) == first + " AND "@ + second + " AND "@
        + third) by {
        reveal_with_fuel(sqlite_spelling, 4);
    }
    lemma_fraction_sum(
        t,
        "substr("@,
        ", 20)"@,
        ", 21)"@,
        " GLOB '"@,
        glob,
        "'"@,
        " AND "@,
        "ltrim("@,
        ", '"@,
        "0123456789"@,
        "')"@,
        " = "@,
        "''"@,
        "NOT ("@,
        zero,
        ")"@,
    );
}

/// The pattern of a time, as it is spelled.
proof fn lemma_time_glob_text()
    ensures
        glob_text(time_glob(run(Glob::End))) + "'"@ + " AND "@ + "("@ + "substr("@
            == " [0-9][0-9]:[0-9][0-9]:[0-9][0-9]*' AND (substr("@,
{
    reveal_with_fuel(glob_text, 12);
    reveal_strlit(" [0-9][0-9]:[0-9][0-9]:[0-9][0-9]*' AND (substr(");
    reveal_strlit("'");
    reveal_strlit(" AND ");
    reveal_strlit("(");
    reveal_strlit("substr(");
    assert(glob_text(time_glob(run(Glob::End))) + "'"@ + " AND "@ + "("@ + "substr("@
        =~= " [0-9][0-9]:[0-9][0-9]:[0-9][0-9]*' AND (substr("@);
}

proof fn lemma_timestamp_joints()
    ensures
        ", 20)"@ + " = "@ + "''"@ + " OR "@ + "("@ + "substr("@ == ", 20) = '' OR (substr("@,
        " GLOB '*0')"@ + ")"@ + ")"@ == " GLOB '*0')))"@,
{
    reveal_strlit(", 20)");
    reveal_strlit(" = ");
    reveal_strlit("''");
    reveal_strlit(" OR ");
    reveal_strlit("(");
    reveal_strlit("substr(");
    reveal_strlit(", 20) = '' OR (substr(");
    reveal_strlit(" GLOB '*0')");
    reveal_strlit(")");
    reveal_strlit(" GLOB '*0')))");
    assert(", 20)"@ + " = "@ + "''"@ + " OR "@ + "("@ + "substr("@ =~= ", 20) = '' OR (substr("@);
    assert(" GLOB '*0')"@ + ")"@ + ")"@ =~= " GLOB '*0')))"@);
}

/// Sums of text may be bracketed in any way.
#[verifier::spinoff_prover]
proof fn lemma_timestamp_sum(
    t: Seq<char>,
    like: Seq<char>,
    date: Seq<char>,
    time: Seq<char>,
    quote: Seq<char>,
    and: Seq<char>,
    open: Seq<char>,
    sub: Seq<char>,
    place: Seq<char>,
    eq: Seq<char>,
    none: Seq<char>,
    or: Seq<char>,
    middle: Seq<char>,
    last: Seq<char>,
    close: Seq<char>,
)
    ensures
        (t + like + (date + time) + quote) + and + (open + (((sub + t + place) + eq + none) + or + (
        open + (sub + t + middle + last) + close)) + close) == t + like + date + (time + quote + and
            + open + sub) + t + (place + eq + none + or + open + sub) + t + middle + (last + close
            + close),
{
    let left = (t + like + (date + time) + quote) + and + (open + (((sub + t + place) + eq + none)
        + or + (open + (sub + t + middle + last) + close)) + close);
    let a = t + like + date + time + quote + and + open + sub + t;
    let b = place + eq + none + or + open + sub + t + middle;
    let c = last + close + close;
    assert(left =~= a + b + c) by {
        assert((t + like + (date + time) + quote) =~= t + like + date + time + quote);
        let inner = open + (sub + t + middle + last) + close;
        let all = ((sub + t + place) + eq + none) + or + inner;
        assert(all =~= sub + t + (place + eq + none + or + open + sub + t + middle) + (last
            + close));
    }
    assert(a =~= t + like + date + (time + quote + and + open + sub) + t);
    assert(b =~= (place + eq + none + or + open + sub) + t + middle);
    let right = t + like + date + (time + quote + and + open + sub) + t + (place + eq + none + or
        + open + sub) + t + middle + (last + close + close);
    assert(right =~= a + b + c);
}

proof fn lemma_sqlite_timestamp_spelling(x: SqliteExpr, name: Seq<char>)
    ensures
        sqlite_spelling(sqlite_is_timestamp(x), name) == timestamp_condition(
            sqlite_spelling(x, name),
        ),
{
    let t = sqlite_spelling(x, name);
    lemma_sqlite_place_spelling(x, name);
    lemma_sqlite_fraction_spelling(x, name);
    lemma_date_glob_text(time_glob(run(Glob::End)));
    lemma_time_glob_text();
    lemma_timestamp_joints();
    let behind = glob_text(time_glob(run(Glob::End)));
    let middle = ", 20) GLOB '.[0-9]*' AND ltrim(substr("@ + t
        + ", 21), '0123456789') = '' AND NOT ("@ + t;
    let fraction = sqlite_spelling(sqlite_is_fraction(x), name);
    assert(fraction == "substr("@ + t + middle + " GLOB '*0')"@) by {
        assert(fraction =~= "substr("@ + t + middle + " GLOB '*0')"@);
    }
    let like = t + " GLOB '"@ + (SQLITE_DATE_GLOB@ + behind) + "'"@;
    let none = ("substr("@ + t + ", 20)"@) + " = "@ + "''"@;
    assert(sqlite_spelling(sqlite_is_timestamp(x), name) == like + " AND "@ + ("("@ + (none
        + " OR "@ + ("("@ + fraction + ")"@)) + ")"@)) by {
        reveal_with_fuel(sqlite_spelling, 5);
    }
    lemma_timestamp_sum(
        t,
        " GLOB '"@,
        SQLITE_DATE_GLOB@,
        behind,
        "'"@,
        " AND "@,
        "("@,
        "substr("@,
        ", 20)"@,
        " = "@,
        "''"@,
        " OR "@,
        middle,
        " GLOB '*0')"@,
        ")"@,
    );
    let time = " [0-9][0-9]:[0-9][0-9]:[0-9][0-9]*' AND (substr("@;
    let joint = ", 20) = '' OR (substr("@;
    assert(sqlite_spelling(sqlite_is_timestamp(x), name) == t + " GLOB '"@ + SQLITE_DATE_GLOB@
        + time + t + joint + t + middle + " GLOB '*0')))"@);
    let front = t + " GLOB '"@ + SQLITE_DATE_GLOB@ + time + t + joint + t;
    assert(timestamp_condition(t) == front + ", 20) GLOB '.[0-9]*' AND ltrim(substr("@ + t
        + ", 21), '0123456789') = '' AND NOT ("@ + t + " GLOB '*0')))"@);
    assert(front + middle =~= front + ", 20) GLOB '.[0-9]*' AND ltrim(substr("@ + t
        + ", 21), '0123456789') = '' AND NOT ("@ + t);
}


/// A run takes any number of characters.
pub(crate) proof fn lemma_run(rest: Glob, text: Seq<char>)
    ensures
        glob_matches(run(rest), text) <==> exists|k: int|
            0 <= k <= text.len() && #[trigger] glob_matches(rest, text.skip(k)),
    decreases text.len(),
{
    assert(text.skip(0) =~= text);
    assert(glob_matches(rest, text.skip(0)) == glob_matches(rest, text));
    assert(glob_matches(run(rest), text) == (glob_matches(rest, text) || (text.len() > 0
        && glob_matches(run(rest), text.skip(1)))));
    if text.len() > 0 {
        lemma_run(rest, text.skip(1));
        if glob_matches(run(rest), text.skip(1)) {
            let k = choose|k: int|
                0 <= k <= text.skip(1).len() && #[trigger] glob_matches(rest, text.skip(1).skip(k));
            assert(text.skip(1).skip(k) =~= text.skip(k + 1));
            assert(glob_matches(rest, text.skip(k + 1)));
        }
        if exists|k: int| 0 <= k <= text.len() && #[trigger] glob_matches(rest, text.skip(k)) {
            let k = choose|k: int|
                0 <= k <= text.len() && #[trigger] glob_matches(rest, text.skip(k));
            if k > 0 {
                assert(text.skip(1).skip(k - 1) =~= text.skip(k));
                assert(glob_matches(rest, text.skip(1).skip(k - 1)));
            }
        }
    }
}

pub(crate) proof fn lemma_run_to_end(text: Seq<char>)
    ensures
        glob_matches(run(Glob::End), text),
{
    lemma_run(Glob::End, text);
    assert(glob_matches(Glob::End, text.skip(text.len() as int)));
}

proof fn lemma_ends_with_zero(text: Seq<char>)
    ensures
        glob_matches(run(one('0', Glob::End)), text) <==> text.len() > 0 && text.last() == '0',
{
    let rest = one('0', Glob::End);
    lemma_run(rest, text);
    if glob_matches(run(rest), text) {
        let k = choose|k: int|
            0 <= k <= text.len() && #[trigger] glob_matches(rest, text.skip(k));
        lemma_glob_step(GlobItem::Char('0'), Glob::End, text, k);
        assert(text.skip(k + 1).len() == 0);
    }
    if text.len() > 0 && text.last() == '0' {
        let k = text.len() - 1;
        lemma_glob_step(GlobItem::Char('0'), Glob::End, text, k);
        assert(glob_matches(rest, text.skip(k)));
    }
}

/// The pattern of a text that ends in `+00`.
pub open spec fn utc_glob() -> Glob {
    run(one('+', one('0', one('0', Glob::End))))
}

proof fn lemma_ends_in_utc(text: Seq<char>)
    ensures
        glob_matches(utc_glob(), text) <==> "+00"@.is_suffix_of(text),
{
    reveal_strlit("+00");
    let rest = one('+', one('0', one('0', Glob::End)));
    lemma_run(rest, text);
    if glob_matches(utc_glob(), text) {
        let k = choose|k: int|
            0 <= k <= text.len() && #[trigger] glob_matches(rest, text.skip(k));
        lemma_glob_step(GlobItem::Char('+'), one('0', one('0', Glob::End)), text, k);
        lemma_glob_step(GlobItem::Char('0'), one('0', Glob::End), text, k + 1);
        lemma_glob_step(GlobItem::Char('0'), Glob::End, text, k + 2);
        assert(text.skip(k + 3).len() == 0);
        assert(text.subrange(text.len() - 3, text.len() as int) =~= "+00"@);
    }
    if "+00"@.is_suffix_of(text) {
        let k = text.len() - 3;
        assert(text.subrange(k, text.len() as int)[0] == text[k]);
        assert(text.subrange(k, text.len() as int)[1] == text[k + 1]);
        assert(text.subrange(k, text.len() as int)[2] == text[k + 2]);
        lemma_glob_step(GlobItem::Char('+'), one('0', one('0', Glob::End)), text, k);
        lemma_glob_step(GlobItem::Char('0'), one('0', Glob::End), text, k + 1);
        lemma_glob_step(GlobItem::Char('0'), Glob::End, text, k + 2);
        assert(glob_matches(rest, text.skip(k)));
    }
}

pub(crate) proof fn lemma_digit_chars(c: char)
    ensures
        "0123456789"@.contains(c) <==> is_digit(c),
{
    reveal_strlit("0123456789");
    let digits = "0123456789"@;
    if is_digit(c) {
        assert(digits[c as int - '0' as int] == c);
    }
}

proof fn lemma_all_digits(text: Seq<char>)
    ensures
        ltrimmed(text, "0123456789"@).len() == 0 <==> forall|i: int|
            0 <= i < text.len() ==> is_digit(#[trigger] text[i]),
    decreases text.len(),
{
    if text.len() > 0 {
        lemma_digit_chars(text[0]);
        lemma_all_digits(text.skip(1));
        if is_digit(text[0]) {
            assert forall|i: int|
                0 <= i < text.len() && (forall|j: int|
                    0 <= j < text.skip(1).len() ==> is_digit(
                        #[trigger] text.skip(1)[j],
                    )) implies is_digit(#[trigger] text[i]) by {
                if i > 0 {
                    assert(text.skip(1)[i - 1] == text[i]);
                }
            }
            assert forall|j: int|
                0 <= j < text.skip(1).len() && (forall|i: int|
                    0 <= i < text.len() ==> is_digit(#[trigger] text[i])) implies is_digit(
                #[trigger] text.skip(1)[j],
            ) by {
                assert(text.skip(1)[j] == text[j + 1]);
            }
        }
    }
}

/// The text of a timestamp without its fraction, as it is spelled.
proof fn lemma_seconds_shape(text: Seq<char>)
    requires
        text.len() >= 19,
    ensures
        crate::stats_encode::is_whole_seconds_text(text.take(19)) <==> has_date_at(text)
            && has_time_at(text),
{
    reveal_strlit("NNNN-NN-NN NN:NN:NN");
    let shape = "NNNN-NN-NN NN:NN:NN"@;
    let head = text.take(19);
    assert(forall|i: int| 0 <= i < 19 ==> #[trigger] head[i] == text[i]);
    if crate::stats_encode::is_whole_seconds_text(head) {
        assert(is_digit(head[0]) && is_digit(head[1]) && is_digit(head[2]) && is_digit(head[3]));
        assert(head[4] == shape[4] && is_digit(head[5]) && is_digit(head[6]));
        assert(head[7] == shape[7] && is_digit(head[8]) && is_digit(head[9]));
        assert(head[10] == shape[10] && is_digit(head[11]) && is_digit(head[12]));
        assert(head[13] == shape[13] && is_digit(head[14]) && is_digit(head[15]));
        assert(head[16] == shape[16] && is_digit(head[17]) && is_digit(head[18]));
    }
    if has_date_at(text) && has_time_at(text) {
        assert forall|i: int| 0 <= i < shape.len() implies if shape[i] == 'N' {
            is_digit(#[trigger] head[i])
        } else {
            head[i] == shape[i]
        } by {
            assert(head[i] == text[i]);
            if i == 4 || i == 7 || i == 10 || i == 13 || i == 16 {
            } else if i < 4 {
            } else if i < 10 {
            } else {
            }
        }
    }
}

proof fn lemma_value_from_place(x: SqliteExpr, statistic: Seq<char>, text: Seq<char>, n: nat)
    requires
        sqlite_value(x, statistic) == SqlValue::Text(text),
    ensures
        sqlite_value(from_place(x, n), statistic) == SqlValue::Text(
            substring(text, n as int, text.len() as int),
        ),
        sqlite_value(no_text(), statistic) == SqlValue::Text(Seq::empty()),
{
    reveal_with_fuel(sqlite_value, 2);
}

pub(crate) proof fn lemma_value_equals(a: SqliteExpr, b: SqliteExpr, s: Seq<char>, x: Seq<char>, y: Seq<char>)
    requires
        sqlite_value(a, s) == SqlValue::Text(x),
        sqlite_value(b, s) == SqlValue::Text(y),
    ensures
        holds(sqlite_value(SqliteExpr::Equals(Box::new(a), Box::new(b)), s)) <==> x == y,
{
    lemma_text_order(x, y);
}

pub(crate) proof fn lemma_value_like(a: SqliteExpr, glob: Glob, s: Seq<char>, x: Seq<char>)
    requires
        sqlite_value(a, s) == SqlValue::Text(x),
    ensures
        sqlite_value(SqliteExpr::Like(Box::new(a), glob), s) == truth(glob_matches(glob, x)),
{
}

pub(crate) proof fn lemma_value_logic(a: SqliteExpr, b: SqliteExpr, s: Seq<char>)
    ensures
        holds(sqlite_value(SqliteExpr::And(Box::new(a), Box::new(b)), s)) <==> holds(
            sqlite_value(a, s),
        ) && holds(sqlite_value(b, s)),
        holds(sqlite_value(SqliteExpr::Or(Box::new(a), Box::new(b)), s)) <==> holds(
            sqlite_value(a, s),
        ) || holds(sqlite_value(b, s)),
        sqlite_value(SqliteExpr::Brackets(Box::new(a)), s) == sqlite_value(a, s),
        sqlite_value(a, s) is Integer ==> (holds(sqlite_value(SqliteExpr::Not(Box::new(a)), s))
            <==> !holds(sqlite_value(a, s))),
{
}

proof fn lemma_sqlite_is_fraction(x: SqliteExpr, statistic: Seq<char>, text: Seq<char>)
    requires
        sqlite_value(x, statistic) == SqlValue::Text(text),
        text.len() > 19,
    ensures
        holds(sqlite_value(sqlite_is_fraction(x), statistic))
            <==> crate::stats_encode::is_trimmed_fraction(text.skip(19)),
{
    let tail = substring(text, 20, text.len() as int);
    let digits = substring(text, 21, text.len() as int);
    let trimmed = ltrimmed(digits, "0123456789"@);
    let fraction_glob = one('.', digit(run(Glob::End)));
    let zero = run(one('0', Glob::End));
    lemma_value_from_place(x, statistic, text, 20);
    lemma_value_from_place(x, statistic, text, 21);
    let a = SqliteExpr::Like(Box::new(from_place(x, 20)), fraction_glob);
    let l = SqliteExpr::Ltrim(Box::new(from_place(x, 21)), "0123456789"@);
    let b = SqliteExpr::Equals(Box::new(l), Box::new(no_text()));
    let z = SqliteExpr::Like(Box::new(x), zero);
    lemma_value_like(from_place(x, 20), fraction_glob, statistic, tail);
    assert(sqlite_value(l, statistic) == SqlValue::Text(trimmed));
    lemma_value_equals(l, no_text(), statistic, trimmed, Seq::empty());
    lemma_value_like(x, zero, statistic, text);
    lemma_value_logic(a, b, statistic);
    lemma_value_logic(z, b, statistic);
    lemma_value_logic(
        SqliteExpr::And(Box::new(a), Box::new(b)),
        SqliteExpr::Not(Box::new(z)),
        statistic,
    );
    assert(trimmed.len() == 0 <==> trimmed =~= Seq::empty());
    lemma_all_digits(digits);
    lemma_ends_with_zero(text);
    assert(tail =~= text.skip(19));
    assert(tail.skip(0) =~= tail);
    lemma_glob_step(GlobItem::Char('.'), digit(run(Glob::End)), tail, 0);
    lemma_glob_step(GlobItem::Digit, run(Glob::End), tail, 1);
    if tail.len() > 1 {
        lemma_run_to_end(tail.skip(2));
        assert(digits =~= text.skip(20));
        assert(tail.skip(1) =~= digits);
        assert(digits[0] == tail[1]);
        assert(tail.last() == text.last());
    }
}

proof fn lemma_sqlite_is_timestamp(x: SqliteExpr, statistic: Seq<char>, text: Seq<char>)
    requires
        sqlite_value(x, statistic) == SqlValue::Text(text),
    ensures
        holds(sqlite_value(sqlite_is_timestamp(x), statistic)) <==> is_timestamp_text(text),
{
    let glob = date_glob(time_glob(run(Glob::End)));
    lemma_date_glob(time_glob(run(Glob::End)), text);
    if text.len() >= 10 {
        lemma_time_glob(run(Glob::End), text);
    }
    if text.len() >= 19 {
        lemma_run_to_end(text.skip(19));
        lemma_seconds_shape(text);
    }
    assert(glob_matches(glob, text) <==> text.len() >= 19
        && crate::stats_encode::is_whole_seconds_text(text.take(19)));
    let tail = substring(text, 20, text.len() as int);
    let like = SqliteExpr::Like(Box::new(x), glob);
    let none = SqliteExpr::Equals(Box::new(from_place(x, 20)), Box::new(no_text()));
    let fraction = sqlite_is_fraction(x);
    let either = SqliteExpr::Or(
        Box::new(none),
        Box::new(SqliteExpr::Brackets(Box::new(fraction))),
    );
    lemma_value_from_place(x, statistic, text, 20);
    lemma_value_like(x, glob, statistic, text);
    lemma_value_equals(from_place(x, 20), no_text(), statistic, tail, Seq::empty());
    lemma_value_logic(fraction, none, statistic);
    lemma_value_logic(none, SqliteExpr::Brackets(Box::new(fraction)), statistic);
    lemma_value_logic(either, none, statistic);
    lemma_value_logic(like, SqliteExpr::Brackets(Box::new(either)), statistic);
    assert(tail.len() == 0 <==> tail =~= Seq::empty());
    if text.len() > 19 {
        lemma_sqlite_is_fraction(x, statistic, text);
    }
}

/// A bound of a column of timestamps is compared as text, and only where it is spelled
/// in the one way whose order as text is that in time. Anything else is `NULL`.
pub proof fn lemma_sqlite_timestamp_bounds(
    name: Seq<char>,
    constant: Seq<char>,
    data_type: DataType,
)
    requires
        data_type matches DataType::Timestamp(_, zone) && zone is None,
        is_timestamp_text(constant),
    ensures
        sqlite_cast_text(name, constant, data_type) matches Some(sql) && exists|e: SqliteExpr|
            #![trigger sqlite_reads(e, name, sql)]
            sqlite_reads(e, name, sql) && (forall|text: Seq<char>| #[trigger]
                sqlite_value(e, text) == if is_timestamp_text(text) {
                    SqlValue::Text(text)
                } else {
                    SqlValue::Null
                }),
{
    let condition = sqlite_is_timestamp(SqliteExpr::Statistic);
    let e = sqlite_guarded(condition);
    lemma_sqlite_timestamp_spelling(SqliteExpr::Statistic, name);
    lemma_sqlite_guarded(condition, name, Seq::empty());
    let sql = sqlite_cast_text(name, constant, data_type)->0;
    assert(sqlite_reads(e, name, sql));
    assert forall|text: Seq<char>| #[trigger] sqlite_value(e, text) == if is_timestamp_text(text) {
        SqlValue::Text(text)
    } else {
        SqlValue::Null
    } by {
        lemma_sqlite_guarded(condition, name, text);
        lemma_sqlite_is_timestamp(SqliteExpr::Statistic, text, text);
    }
}

/// The expression without its last three characters.
pub open spec fn sqlite_without_offset() -> SqliteExpr {
    SqliteExpr::SubstrOf(
        Box::new(SqliteExpr::Statistic),
        Box::new(SqliteExpr::Number(1)),
        Box::new(
            SqliteExpr::Minus(Box::new(SqliteExpr::Length(Box::new(SqliteExpr::Statistic))), 3),
        ),
    )
}

proof fn lemma_sqlite_offset_spelling(name: Seq<char>)
    ensures
        sqlite_spelling(sqlite_without_offset(), name) == without_offset(name),
{
    reveal_with_fuel(sqlite_spelling, 4);
    reveal_with_fuel(nat_text, 2);
    reveal_strlit(", ");
    reveal_strlit("length(");
    reveal_strlit(")");
    reveal_strlit(" - ");
    reveal_strlit(", 1, length(");
    reveal_strlit(") - 3)");
    assert(nat_text(1) =~= seq!['1']);
    assert(nat_text(3) =~= seq!['3']);
    let front = "substr("@ + name;
    assert(front + ", "@ + nat_text(1) + ", "@ + (("length("@ + name + ")"@) + " - "@ + nat_text(3))
        + ")"@ =~= front + ", 1, length("@ + name + ") - 3)"@);
}

/// A bound of a column of timestamps with a time zone is compared as text, and only
/// where it is spelled in that one way and in UTC. Anything else is `NULL`.
#[verifier::spinoff_prover]
pub proof fn lemma_sqlite_utc_timestamp_bounds(
    name: Seq<char>,
    constant: Seq<char>,
    data_type: DataType,
)
    requires
        data_type matches DataType::Timestamp(_, zone) && zone is Some,
        is_timestamptz_text(constant),
    ensures
        sqlite_cast_text(name, constant, data_type) matches Some(sql) && exists|e: SqliteExpr|
            #![trigger sqlite_reads(e, name, sql)]
            sqlite_reads(e, name, sql) && (forall|text: Seq<char>| #[trigger]
                sqlite_value(e, text) == if is_timestamptz_text(text) {
                    SqlValue::Text(text)
                } else {
                    SqlValue::Null
                }),
{
    let body = sqlite_without_offset();
    let ends = SqliteExpr::Like(Box::new(SqliteExpr::Statistic), utc_glob());
    let condition = SqliteExpr::And(Box::new(ends), Box::new(sqlite_is_timestamp(body)));
    let e = sqlite_guarded(condition);
    lemma_sqlite_offset_spelling(name);
    lemma_sqlite_timestamp_spelling(body, name);
    lemma_sqlite_guarded(condition, name, Seq::empty());
    let rest = timestamp_condition(without_offset(name));
    assert(sqlite_spelling(condition, name) == (name + " GLOB '"@ + glob_text(utc_glob()) + "'"@)
        + " AND "@ + rest) by {
        reveal_with_fuel(sqlite_spelling, 3);
    }
    assert((name + " GLOB '"@ + glob_text(utc_glob()) + "'"@) + " AND "@ =~= name
        + " GLOB '*+00' AND "@) by {
        reveal_with_fuel(glob_text, 5);
        reveal_strlit(" GLOB '");
        reveal_strlit("'");
        reveal_strlit(" AND ");
        reveal_strlit(" GLOB '*+00' AND ");
    }
    let sql = sqlite_cast_text(name, constant, data_type)->0;
    assert(sqlite_reads(e, name, sql));
    assert forall|text: Seq<char>| #[trigger] sqlite_value(e, text) == if is_timestamptz_text(
        text,
    ) {
        SqlValue::Text(text)
    } else {
        SqlValue::Null
    } by {
        lemma_sqlite_guarded(condition, name, text);
        lemma_ends_in_utc(text);
        reveal_strlit("+00");
        let cut = substring(text, 1, text.len() - 3);
        assert(sqlite_value(body, text) == SqlValue::Text(cut)) by {
            reveal_with_fuel(sqlite_value, 5);
        }
        lemma_sqlite_is_timestamp(body, text, cut);
        assert(holds(sqlite_value(condition, text)) <==> glob_matches(utc_glob(), text) && holds(
            sqlite_value(sqlite_is_timestamp(body), text),
        )) by {
            reveal_with_fuel(sqlite_value, 3);
        }
        if text.len() > 3 {
            assert(cut =~= text.take(text.len() - 3));
        }
    }
}

/// Dates and timestamps that are not spelled in that one way are not compared, nor are
/// numbers that SQLite would round, nor values of any other type.
pub proof fn lemma_sqlite_declines(name: Seq<char>, constant: Seq<char>, data_type: DataType)
    ensures
        sqlite_cast_text(name, constant, data_type) is Some <==> match data_type {
            DataType::Boolean => true,
            DataType::Int8 => true,
            DataType::Int16 => true,
            DataType::Int32 => true,
            DataType::Int64 => true,
            DataType::UInt8 => true,
            DataType::UInt16 => true,
            DataType::UInt32 => true,
            DataType::UInt64 => true,
            DataType::Float32 => true,
            DataType::Float64 => true,
            DataType::Date32 => is_date_text(constant),
            DataType::Timestamp(_, None) => is_timestamp_text(constant),
            DataType::Timestamp(_, Some(_)) => is_timestamptz_text(constant),
            _ => false,
        },
{
}

// ---------------------------------------------------------------------------
// Floats in SQLite
// ---------------------------------------------------------------------------

/// `[-0-9]*`
pub open spec fn number_start() -> Glob {
    Glob::Then(GlobItem::DigitOrMinus, Box::new(run(Glob::End)))
}

/// `?*-*`
pub open spec fn later_minus() -> Glob {
    Glob::Then(GlobItem::One, Box::new(run(one('-', run(Glob::End)))))
}

/// `*[0-9]*`
pub open spec fn some_digit() -> Glob {
    run(digit(run(Glob::End)))
}

/// What is left of an expression between its digits, and behind its minus.
pub open spec fn between_digits(x: SqliteExpr) -> SqliteExpr {
    SqliteExpr::Rtrim(
        Box::new(
            SqliteExpr::Ltrim(
                Box::new(SqliteExpr::Ltrim(Box::new(x), "-"@)),
                "0123456789"@,
            ),
        ),
        "0123456789"@,
    )
}

/// The condition that an expression is digits with a minus at most in front, of which one
/// test is left.
pub open spec fn sqlite_is_number(x: SqliteExpr, test: SqliteExpr) -> SqliteExpr {
    SqliteExpr::And(
        Box::new(
            SqliteExpr::And(
                Box::new(
                    SqliteExpr::And(
                        Box::new(SqliteExpr::Like(Box::new(x), number_start())),
                        Box::new(
                            SqliteExpr::Not(
                                Box::new(SqliteExpr::Like(Box::new(x), later_minus())),
                            ),
                        ),
                    ),
                ),
                Box::new(
                    SqliteExpr::Like(
                        Box::new(SqliteExpr::Ltrim(Box::new(x), "-"@)),
                        some_digit(),
                    ),
                ),
            ),
        ),
        Box::new(test),
    )
}

/// A number with one point.
pub open spec fn sqlite_fixed_decimal() -> SqliteExpr {
    sqlite_is_number(
        SqliteExpr::Statistic,
        SqliteExpr::Equals(
            Box::new(between_digits(SqliteExpr::Statistic)),
            Box::new(SqliteExpr::Constant("."@)),
        ),
    )
}

proof fn lemma_glob_texts()
    ensures
        " GLOB '"@ + glob_text(number_start()) + "'"@ == " GLOB '[-0-9]*'"@,
        " GLOB '"@ + glob_text(later_minus()) + "'"@ == " GLOB '?*-*'"@,
        " GLOB '"@ + glob_text(some_digit()) + "'"@ == " GLOB '*[0-9]*'"@,
{
    reveal_with_fuel(glob_text, 5);
    reveal_strlit(" GLOB '");
    reveal_strlit("'");
    reveal_strlit(" GLOB '[-0-9]*'");
    reveal_strlit(" GLOB '?*-*'");
    reveal_strlit(" GLOB '*[0-9]*'");
    assert(" GLOB '"@ + glob_text(number_start()) + "'"@ =~= " GLOB '[-0-9]*'"@);
    assert(" GLOB '"@ + glob_text(later_minus()) + "'"@ =~= " GLOB '?*-*'"@);
    assert(" GLOB '"@ + glob_text(some_digit()) + "'"@ =~= " GLOB '*[0-9]*'"@);
}

proof fn lemma_like_spelling(x: SqliteExpr, glob: Glob, name: Seq<char>)
    ensures
        sqlite_spelling(SqliteExpr::Like(Box::new(x), glob), name) == sqlite_spelling(x, name) + (
        " GLOB '"@ + glob_text(glob) + "'"@),
{
    let t = sqlite_spelling(x, name);
    assert(t + " GLOB '"@ + glob_text(glob) + "'"@ =~= t + (" GLOB '"@ + glob_text(glob) + "'"@));
}

proof fn lemma_trim_texts()
    ensures
        ", '"@ + "-"@ + "')"@ == ", '-')"@,
        ", '"@ + "0123456789"@ + "')"@ == ", '0123456789')"@,
        "'"@ + "."@ + "'"@ == "'.'"@,
{
    reveal_strlit(", '");
    reveal_strlit("-");
    reveal_strlit("')");
    reveal_strlit(", '-')");
    reveal_strlit("0123456789");
    reveal_strlit(", '0123456789')");
    reveal_strlit("'");
    reveal_strlit(".");
    reveal_strlit("'.'");
    assert(", '"@ + "-"@ + "')"@ =~= ", '-')"@);
    assert(", '"@ + "0123456789"@ + "')"@ =~= ", '0123456789')"@);
    assert("'"@ + "."@ + "'"@ =~= "'.'"@);
}

proof fn lemma_trim_spelling(x: SqliteExpr, name: Seq<char>)
    ensures
        sqlite_spelling(SqliteExpr::Ltrim(Box::new(x), "-"@), name) == "ltrim("@ + sqlite_spelling(
            x,
            name,
        ) + ", '-')"@,
        sqlite_spelling(between_digits(x), name) == "rtrim("@ + ("ltrim("@ + ("ltrim("@
            + sqlite_spelling(x, name) + ", '-')"@) + ", '0123456789')"@) + ", '0123456789')"@,
{
    reveal_with_fuel(sqlite_spelling, 4);
    lemma_trim_texts();
    let t = sqlite_spelling(x, name);
    let (q, d, c) = (", '"@, "0123456789"@, "')"@);
    let one = "ltrim("@ + t;
    assert(one + q + "-"@ + c =~= one + (q + "-"@ + c));
    let two = "ltrim("@ + ("ltrim("@ + t + ", '-')"@);
    assert(two + q + d + c =~= two + (q + d + c));
    let three = "rtrim("@ + (two + ", '0123456789')"@);
    assert(three + q + d + c =~= three + (q + d + c));
}

/// The conjuncts of a number, one behind the other.
spec fn number_text(t: Seq<char>, test: Seq<char>) -> Seq<char> {
    t + " GLOB '[-0-9]*'"@ + " AND "@ + ("NOT ("@ + (t + " GLOB '?*-*'"@) + ")"@) + " AND "@ + (
    "ltrim("@ + t + ", '-')"@ + " GLOB '*[0-9]*'"@) + " AND "@ + test
}

proof fn lemma_number_spelling(x: SqliteExpr, test: SqliteExpr, name: Seq<char>)
    ensures
        sqlite_spelling(sqlite_is_number(x, test), name) == number_text(
            sqlite_spelling(x, name),
            sqlite_spelling(test, name),
        ),
{
    lemma_glob_texts();
    lemma_like_spelling(x, number_start(), name);
    lemma_like_spelling(x, later_minus(), name);
    let trimmed = SqliteExpr::Ltrim(Box::new(x), "-"@);
    lemma_like_spelling(trimmed, some_digit(), name);
    lemma_trim_spelling(x, name);
    let a = SqliteExpr::Like(Box::new(x), number_start());
    let b0 = SqliteExpr::Like(Box::new(x), later_minus());
    let b = SqliteExpr::Not(Box::new(b0));
    let c = SqliteExpr::Like(Box::new(trimmed), some_digit());
    let ab = SqliteExpr::And(Box::new(a), Box::new(b));
    let abc = SqliteExpr::And(Box::new(ab), Box::new(c));
    assert(sqlite_spelling(b, name) == "NOT ("@ + sqlite_spelling(b0, name) + ")"@);
    assert(sqlite_spelling(ab, name) == sqlite_spelling(a, name) + " AND "@ + sqlite_spelling(
        b,
        name,
    ));
    assert(sqlite_spelling(abc, name) == sqlite_spelling(ab, name) + " AND "@ + sqlite_spelling(
        c,
        name,
    ));
    assert(sqlite_spelling(sqlite_is_number(x, test), name) == sqlite_spelling(abc, name)
        + " AND "@ + sqlite_spelling(test, name));
}

/// The literals that the conjuncts of a number are joined by.
proof fn lemma_number_joints()
    ensures
        " GLOB '[-0-9]*'"@ + " AND "@ + "NOT ("@ == " GLOB '[-0-9]*' AND NOT ("@,
        " GLOB '?*-*'"@ + ")"@ + " AND "@ + "ltrim("@ == " GLOB '?*-*') AND ltrim("@,
        ", '-')"@ + " GLOB '*[0-9]*'"@ + " AND "@ + "rtrim("@ + "ltrim("@ + "ltrim("@
            == ", '-') GLOB '*[0-9]*' AND rtrim(ltrim(ltrim("@,
        ", '-')"@ + ", '0123456789')"@ + ", '0123456789')"@
            == ", '-'), '0123456789'), '0123456789')"@,
{
    reveal_strlit(" GLOB '[-0-9]*'");
    reveal_strlit(" AND ");
    reveal_strlit("NOT (");
    reveal_strlit(" GLOB '[-0-9]*' AND NOT (");
    reveal_strlit(" GLOB '?*-*'");
    reveal_strlit(")");
    reveal_strlit("ltrim(");
    reveal_strlit(" GLOB '?*-*') AND ltrim(");
    reveal_strlit(", '-')");
    reveal_strlit(" GLOB '*[0-9]*'");
    reveal_strlit("rtrim(");
    reveal_strlit(", '-') GLOB '*[0-9]*' AND rtrim(ltrim(ltrim(");
    reveal_strlit(", '0123456789')");
    reveal_strlit(", '-'), '0123456789'), '0123456789')");
    assert(" GLOB '[-0-9]*'"@ + " AND "@ + "NOT ("@ =~= " GLOB '[-0-9]*' AND NOT ("@);
    assert(" GLOB '?*-*'"@ + ")"@ + " AND "@ + "ltrim("@ =~= " GLOB '?*-*') AND ltrim("@);
    assert(", '-')"@ + " GLOB '*[0-9]*'"@ + " AND "@ + "rtrim("@ + "ltrim("@ + "ltrim("@
        =~= ", '-') GLOB '*[0-9]*' AND rtrim(ltrim(ltrim("@);
    assert(", '-')"@ + ", '0123456789')"@ + ", '0123456789')"@
        =~= ", '-'), '0123456789'), '0123456789')"@);
}

/// Sums of text may be bracketed in any way.
#[verifier::spinoff_prover]
proof fn lemma_number_sum(
    t: Seq<char>,
    start: Seq<char>,
    and: Seq<char>,
    not: Seq<char>,
    later: Seq<char>,
    close: Seq<char>,
    trim: Seq<char>,
    minus: Seq<char>,
    some: Seq<char>,
    rtrim: Seq<char>,
    digits: Seq<char>,
    end: Seq<char>,
)
    ensures
        t + start + and + (not + (t + later) + close) + and + (trim + t + minus + some) + and + (
        rtrim + (trim + (trim + t + minus) + digits) + digits + end) == t + (start + and + not) + t
            + (later + close + and + trim) + t + (minus + some + and + rtrim + trim + trim) + t + (
        minus + digits + digits) + end,
{
    let a = t + start + and + (not + (t + later) + close);
    assert(a =~= t + (start + and + not) + t + (later + close));
    let a2 = t + (start + and + not) + t;
    assert(a2 + (later + close) + and + (trim + t + minus + some) =~= a2 + (later + close + and
        + trim) + t + (minus + some));
    let b = a2 + (later + close + and + trim) + t;
    assert(b + (minus + some) + and + (rtrim + (trim + (trim + t + minus) + digits) + digits + end)
        =~= b + (minus + some + and + rtrim + trim + trim) + t + (minus + digits + digits) + end);
}

proof fn lemma_fixed_decimal_spelling(name: Seq<char>)
    ensures
        sqlite_spelling(sqlite_fixed_decimal(), name)
            == crate::metadata_provider_sqlite::fixed_decimal_text(name),
{
    let x = SqliteExpr::Statistic;
    let test = SqliteExpr::Equals(
        Box::new(between_digits(x)),
        Box::new(SqliteExpr::Constant("."@)),
    );
    lemma_number_spelling(x, test, name);
    lemma_trim_spelling(x, name);
    lemma_trim_texts();
    lemma_number_joints();
    assert(sqlite_spelling(SqliteExpr::Constant("."@), name) == "'.'"@);
    let left = sqlite_spelling(between_digits(x), name);
    assert(sqlite_spelling(test, name) == left + " = "@ + "'.'"@);
    assert(sqlite_spelling(x, name) == name);
    reveal_strlit(" = ");
    reveal_strlit("'.'");
    reveal_strlit(" = '.'");
    assert(" = "@ + "'.'"@ =~= " = '.'"@);
    assert(left + " = "@ + "'.'"@ =~= left + " = '.'"@);
    lemma_number_sum(
        name,
        " GLOB '[-0-9]*'"@,
        " AND "@,
        "NOT ("@,
        " GLOB '?*-*'"@,
        ")"@,
        "ltrim("@,
        ", '-')"@,
        " GLOB '*[0-9]*'"@,
        "rtrim("@,
        ", '0123456789')"@,
        " = '.'"@,
    );
    reveal_strlit(", '-'), '0123456789'), '0123456789') = '.'");
    reveal_strlit(", '-'), '0123456789'), '0123456789')");
    assert(", '-'), '0123456789'), '0123456789')"@ + " = '.'"@
        =~= ", '-'), '0123456789'), '0123456789') = '.'"@);
    let front = name + " GLOB '[-0-9]*' AND NOT ("@ + name + " GLOB '?*-*') AND ltrim("@ + name
        + ", '-') GLOB '*[0-9]*' AND rtrim(ltrim(ltrim("@ + name;
    assert(front + ", '-'), '0123456789'), '0123456789')"@ + " = '.'"@ =~= front + (
    ", '-'), '0123456789'), '0123456789')"@ + " = '.'"@));
}

/// Where the exponent starts.
pub open spec fn sqlite_mark() -> SqliteExpr {
    SqliteExpr::Instr(Box::new(SqliteExpr::Statistic), "e"@)
}

/// What stands in front of the exponent.
pub open spec fn sqlite_mantissa() -> SqliteExpr {
    SqliteExpr::SubstrOf(
        Box::new(SqliteExpr::Statistic),
        Box::new(SqliteExpr::Number(1)),
        Box::new(SqliteExpr::Minus(Box::new(sqlite_mark()), 1)),
    )
}

/// The sign of the exponent.
pub open spec fn sqlite_sign() -> SqliteExpr {
    SqliteExpr::SubstrOf(
        Box::new(SqliteExpr::Statistic),
        Box::new(SqliteExpr::Plus(Box::new(sqlite_mark()), 1)),
        Box::new(SqliteExpr::Number(1)),
    )
}

/// The digits of the exponent.
pub open spec fn sqlite_exponent() -> SqliteExpr {
    SqliteExpr::Substr(
        Box::new(SqliteExpr::Statistic),
        Box::new(SqliteExpr::Plus(Box::new(sqlite_mark()), 2)),
    )
}

/// The conditions of scientific notation, in their order.
pub open spec fn has_mark() -> SqliteExpr {
    SqliteExpr::Greater(Box::new(sqlite_mark()), Box::new(SqliteExpr::Number(1)))
}

pub open spec fn is_mantissa() -> SqliteExpr {
    sqlite_is_number(
        sqlite_mantissa(),
        SqliteExpr::OneOf(Box::new(between_digits(sqlite_mantissa())), ""@, "."@),
    )
}

pub open spec fn has_sign() -> SqliteExpr {
    SqliteExpr::Like(
        Box::new(sqlite_sign()),
        Glob::Then(GlobItem::Sign, Box::new(Glob::End)),
    )
}

pub open spec fn has_more() -> SqliteExpr {
    SqliteExpr::Greater(
        Box::new(SqliteExpr::Length(Box::new(SqliteExpr::Statistic))),
        Box::new(SqliteExpr::Plus(Box::new(sqlite_mark()), 1)),
    )
}

pub open spec fn starts_in_digit() -> SqliteExpr {
    SqliteExpr::Like(Box::new(sqlite_exponent()), digit(run(Glob::End)))
}

pub open spec fn has_other() -> SqliteExpr {
    SqliteExpr::Like(
        Box::new(sqlite_exponent()),
        run(Glob::Then(GlobItem::NotDigit, Box::new(run(Glob::End)))),
    )
}

pub open spec fn both(a: SqliteExpr, b: SqliteExpr) -> SqliteExpr {
    SqliteExpr::And(Box::new(a), Box::new(b))
}

/// A number in scientific notation.
pub open spec fn sqlite_scientific() -> SqliteExpr {
    both(
        both(
            both(both(both(has_mark(), is_mantissa()), has_sign()), has_more()),
            starts_in_digit(),
        ),
        SqliteExpr::Not(Box::new(has_other())),
    )
}

/// A float, as a real.
pub open spec fn sqlite_float() -> SqliteExpr {
    SqliteExpr::Case(
        Box::new(
            SqliteExpr::Brackets(
                Box::new(
                    SqliteExpr::Or(
                        Box::new(SqliteExpr::Brackets(Box::new(sqlite_fixed_decimal()))),
                        Box::new(SqliteExpr::Brackets(Box::new(sqlite_scientific()))),
                    ),
                ),
            ),
        ),
        Box::new(SqliteExpr::CastReal(Box::new(SqliteExpr::Statistic))),
    )
}

proof fn lemma_mark_spelling(name: Seq<char>)
    ensures
        sqlite_spelling(sqlite_mark(), name) == crate::metadata_provider_sqlite::exponent_mark(name),
        sqlite_spelling(sqlite_mantissa(), name)
            == crate::metadata_provider_sqlite::mantissa_text(name),
        sqlite_spelling(sqlite_exponent(), name)
            == crate::metadata_provider_sqlite::exponent_text(name),
        sqlite_spelling(sqlite_sign(), name) == "substr("@ + name + ", "@
            + crate::metadata_provider_sqlite::exponent_mark(name) + " + 1, 1)"@,
{
    reveal_with_fuel(sqlite_spelling, 4);
    reveal_with_fuel(nat_text, 2);
    reveal_strlit(", '");
    reveal_strlit("e");
    reveal_strlit("')");
    reveal_strlit(", 'e')");
    let front = "instr("@ + name;
    assert(", '"@ + "e"@ + "')"@ =~= ", 'e')"@);
    assert(front + ", '"@ + "e"@ + "')"@ =~= front + (", '"@ + "e"@ + "')"@));
    let mark = crate::metadata_provider_sqlite::exponent_mark(name);
    assert(nat_text(1) =~= seq!['1']);
    assert(nat_text(2) =~= seq!['2']);
    reveal_strlit(", ");
    reveal_strlit(", 1, ");
    reveal_strlit(" - ");
    reveal_strlit(" + ");
    reveal_strlit(")");
    reveal_strlit(" - 1)");
    reveal_strlit(" + 2)");
    reveal_strlit(" + 1, 1)");
    let sub = "substr("@ + name;
    assert(", "@ + seq!['1'] + ", "@ =~= ", 1, "@);
    assert(" - "@ + seq!['1'] + ")"@ =~= " - 1)"@);
    assert(" + "@ + seq!['2'] + ")"@ =~= " + 2)"@);
    assert(" + "@ + seq!['1'] + ", "@ + seq!['1'] + ")"@ =~= " + 1, 1)"@);
    assert(sub + ", "@ + nat_text(1) + ", "@ + (mark + " - "@ + nat_text(1)) + ")"@ =~= sub + (", "@
        + seq!['1'] + ", "@) + mark + (" - "@ + seq!['1'] + ")"@));
    assert(sub + ", "@ + (mark + " + "@ + nat_text(2)) + ")"@ =~= sub + ", "@ + mark + (" + "@
        + seq!['2'] + ")"@));
    assert(sub + ", "@ + (mark + " + "@ + nat_text(1)) + ", "@ + nat_text(1) + ")"@ =~= sub + ", "@
        + mark + (" + "@ + seq!['1'] + ", "@ + seq!['1'] + ")"@));
}

proof fn lemma_scientific_parts(name: Seq<char>)
    ensures
        ({
            let mark = crate::metadata_provider_sqlite::exponent_mark(name);
            let rest = crate::metadata_provider_sqlite::exponent_text(name);
            &&& sqlite_spelling(has_mark(), name) == mark + " > 1"@
            &&& sqlite_spelling(has_sign(), name) == "substr("@ + name + ", "@ + mark
                + " + 1, 1)"@ + " GLOB '[-+]'"@
            &&& sqlite_spelling(has_more(), name) == "length("@ + name + ")"@ + " > "@ + (mark
                + " + 1"@)
            &&& sqlite_spelling(starts_in_digit(), name) == rest + " GLOB '[0-9]*'"@
            &&& sqlite_spelling(has_other(), name) == rest + " GLOB '*[^0-9]*'"@
        }),
{
    lemma_mark_spelling(name);
    reveal_with_fuel(sqlite_spelling, 3);
    reveal_with_fuel(nat_text, 2);
    reveal_with_fuel(glob_text, 4);
    let mark = crate::metadata_provider_sqlite::exponent_mark(name);
    assert(nat_text(1) =~= seq!['1']);
    reveal_strlit(" > ");
    reveal_strlit(" > 1");
    reveal_strlit(" + ");
    reveal_strlit(" + 1");
    assert(" > "@ + seq!['1'] =~= " > 1"@);
    assert(" + "@ + seq!['1'] =~= " + 1"@);
    assert(mark + " > "@ + nat_text(1) =~= mark + (" > "@ + seq!['1']));
    assert(mark + " + "@ + nat_text(1) =~= mark + (" + "@ + seq!['1']));
    let sign = Glob::Then(GlobItem::Sign, Box::new(Glob::End));
    let start = digit(run(Glob::End));
    let other = run(Glob::Then(GlobItem::NotDigit, Box::new(run(Glob::End))));
    reveal_strlit(" GLOB '");
    reveal_strlit("'");
    reveal_strlit(" GLOB '[-+]'");
    reveal_strlit(" GLOB '[0-9]*'");
    reveal_strlit(" GLOB '*[^0-9]*'");
    assert(" GLOB '"@ + glob_text(sign) + "'"@ =~= " GLOB '[-+]'"@);
    assert(" GLOB '"@ + glob_text(start) + "'"@ =~= " GLOB '[0-9]*'"@);
    assert(" GLOB '"@ + glob_text(other) + "'"@ =~= " GLOB '*[^0-9]*'"@);
    lemma_like_spelling(sqlite_sign(), sign, name);
    lemma_like_spelling(sqlite_exponent(), start, name);
    lemma_like_spelling(sqlite_exponent(), other, name);
}

proof fn lemma_mantissa_spelling(name: Seq<char>)
    ensures
        ({
            let m = crate::metadata_provider_sqlite::mantissa_text(name);
            sqlite_spelling(is_mantissa(), name) == m + " GLOB '[-0-9]*' AND NOT ("@ + m
                + " GLOB '?*-*') AND ltrim("@ + m
                + ", '-') GLOB '*[0-9]*' AND rtrim(ltrim(ltrim("@ + m
                + ", '-'), '0123456789'), '0123456789')"@ + " IN ('', '.')"@
        }),
{
    let x = sqlite_mantissa();
    let test = SqliteExpr::OneOf(Box::new(between_digits(x)), ""@, "."@);
    let m = crate::metadata_provider_sqlite::mantissa_text(name);
    lemma_mark_spelling(name);
    lemma_number_spelling(x, test, name);
    lemma_trim_spelling(x, name);
    lemma_number_joints();
    reveal_strlit(" IN ('");
    reveal_strlit("");
    reveal_strlit("', '");
    reveal_strlit(".");
    reveal_strlit("')");
    reveal_strlit(" IN ('', '.')");
    assert(" IN ('"@ + ""@ + "', '"@ + "."@ + "')"@ =~= " IN ('', '.')"@);
    let left = sqlite_spelling(between_digits(x), name);
    assert(sqlite_spelling(test, name) == left + " IN ('"@ + ""@ + "', '"@ + "."@ + "')"@);
    assert(left + " IN ('"@ + ""@ + "', '"@ + "."@ + "')"@ =~= left + (" IN ('"@ + ""@ + "', '"@
        + "."@ + "')"@));
    lemma_number_sum(
        m,
        " GLOB '[-0-9]*'"@,
        " AND "@,
        "NOT ("@,
        " GLOB '?*-*'"@,
        ")"@,
        "ltrim("@,
        ", '-')"@,
        " GLOB '*[0-9]*'"@,
        "rtrim("@,
        ", '0123456789')"@,
        " IN ('', '.')"@,
    );
}

/// The literals that the conditions of scientific notation are joined by.
proof fn lemma_scientific_joints()
    ensures
        " > 1"@ + " AND "@ == " > 1 AND "@,
        ", '-'), '0123456789'), '0123456789')"@ + " IN ('', '.')"@ + " AND "@ + "substr("@
            == ", '-'), '0123456789'), '0123456789') IN ('', '.') AND substr("@,
        " + 1, 1)"@ + " GLOB '[-+]'"@ + " AND "@ + "length("@
            == " + 1, 1) GLOB '[-+]' AND length("@,
        ")"@ + " > "@ == ") > "@,
        " + 1"@ + " AND "@ == " + 1 AND "@,
        " GLOB '[0-9]*'"@ + " AND "@ + "NOT ("@ == " GLOB '[0-9]*' AND NOT ("@,
        " GLOB '*[^0-9]*'"@ + ")"@ == " GLOB '*[^0-9]*')"@,
{
    reveal_strlit(" > 1");
    reveal_strlit(" AND ");
    reveal_strlit(" > 1 AND ");
    reveal_strlit(", '-'), '0123456789'), '0123456789')");
    reveal_strlit(" IN ('', '.')");
    reveal_strlit("substr(");
    reveal_strlit(", '-'), '0123456789'), '0123456789') IN ('', '.') AND substr(");
    reveal_strlit(" + 1, 1)");
    reveal_strlit(" GLOB '[-+]'");
    reveal_strlit("length(");
    reveal_strlit(" + 1, 1) GLOB '[-+]' AND length(");
    reveal_strlit(")");
    reveal_strlit(" > ");
    reveal_strlit(") > ");
    reveal_strlit(" + 1");
    reveal_strlit(" + 1 AND ");
    reveal_strlit(" GLOB '[0-9]*'");
    reveal_strlit("NOT (");
    reveal_strlit(" GLOB '[0-9]*' AND NOT (");
    reveal_strlit(" GLOB '*[^0-9]*'");
    reveal_strlit(" GLOB '*[^0-9]*')");
    assert(" > 1"@ + " AND "@ =~= " > 1 AND "@);
    assert(", '-'), '0123456789'), '0123456789')"@ + " IN ('', '.')"@ + " AND "@ + "substr("@
        =~= ", '-'), '0123456789'), '0123456789') IN ('', '.') AND substr("@);
    assert(" + 1, 1)"@ + " GLOB '[-+]'"@ + " AND "@ + "length("@
        =~= " + 1, 1) GLOB '[-+]' AND length("@);
    assert(")"@ + " > "@ =~= ") > "@);
    assert(" + 1"@ + " AND "@ =~= " + 1 AND "@);
    assert(" GLOB '[0-9]*'"@ + " AND "@ + "NOT ("@ =~= " GLOB '[0-9]*' AND NOT ("@);
    assert(" GLOB '*[^0-9]*'"@ + ")"@ =~= " GLOB '*[^0-9]*')"@);
}

/// Sums of text may be bracketed in any way.
#[verifier::spinoff_prover]
proof fn lemma_scientific_sum(
    mark: Seq<char>,
    gt: Seq<char>,
    and: Seq<char>,
    m1: Seq<char>,
    m2: Seq<char>,
    m3: Seq<char>,
    sub: Seq<char>,
    name: Seq<char>,
    comma: Seq<char>,
    one: Seq<char>,
    sign: Seq<char>,
    length: Seq<char>,
    close: Seq<char>,
    more: Seq<char>,
    plus: Seq<char>,
    rest: Seq<char>,
    start: Seq<char>,
    not: Seq<char>,
    other: Seq<char>,
)
    ensures
        mark + gt + and + (m1 + m2 + m3) + and + (sub + name + comma + mark + one + sign) + and + (
        length + name + close + more + (mark + plus)) + and + (rest + start) + and + (not + (rest
            + other) + close) == mark + (gt + and) + m1 + (m2 + m3 + and + sub) + name + comma + mark
            + (one + sign + and + length) + name + (close + more) + mark + (plus + and) + rest + (
        start + and + not) + rest + (other + close),
{
    let a = mark + (gt + and) + m1;
    assert(mark + gt + and + (m1 + m2 + m3) =~= a + (m2 + m3));
    assert(a + (m2 + m3) + and + (sub + name + comma + mark + one + sign) =~= a + (m2 + m3 + and
        + sub) + name + comma + mark + (one + sign));
    let b = a + (m2 + m3 + and + sub) + name + comma + mark;
    assert(b + (one + sign) + and + (length + name + close + more + (mark + plus)) =~= b + (one
        + sign + and + length) + name + (close + more) + mark + plus);
    let c = b + (one + sign + and + length) + name + (close + more) + mark;
    assert(c + plus + and + (rest + start) =~= c + (plus + and) + rest + start);
    let d = c + (plus + and) + rest;
    assert(d + start + and + (not + (rest + other) + close) =~= d + (start + and + not) + rest + (
    other + close));
}

proof fn lemma_scientific_spelling(name: Seq<char>)
    ensures
        sqlite_spelling(sqlite_scientific(), name)
            == crate::metadata_provider_sqlite::scientific_text(name),
{
    lemma_scientific_parts(name);
    lemma_mantissa_spelling(name);
    lemma_scientific_joints();
    let mark = crate::metadata_provider_sqlite::exponent_mark(name);
    let m = crate::metadata_provider_sqlite::mantissa_text(name);
    let rest = crate::metadata_provider_sqlite::exponent_text(name);
    let a = both(has_mark(), is_mantissa());
    let b = both(a, has_sign());
    let c = both(b, has_more());
    let d = both(c, starts_in_digit());
    let no = SqliteExpr::Not(Box::new(has_other()));
    assert(sqlite_spelling(a, name) == sqlite_spelling(has_mark(), name) + " AND "@
        + sqlite_spelling(is_mantissa(), name));
    assert(sqlite_spelling(b, name) == sqlite_spelling(a, name) + " AND "@ + sqlite_spelling(
        has_sign(),
        name,
    ));
    assert(sqlite_spelling(c, name) == sqlite_spelling(b, name) + " AND "@ + sqlite_spelling(
        has_more(),
        name,
    ));
    assert(sqlite_spelling(d, name) == sqlite_spelling(c, name) + " AND "@ + sqlite_spelling(
        starts_in_digit(),
        name,
    ));
    assert(sqlite_spelling(no, name) == "NOT ("@ + sqlite_spelling(has_other(), name) + ")"@);
    assert(sqlite_spelling(sqlite_scientific(), name) == sqlite_spelling(d, name) + " AND "@
        + sqlite_spelling(no, name));
    let m1 = m + " GLOB '[-0-9]*' AND NOT ("@ + m + " GLOB '?*-*') AND ltrim("@ + m
        + ", '-') GLOB '*[0-9]*' AND rtrim(ltrim(ltrim("@ + m;
    lemma_scientific_sum(
        mark,
        " > 1"@,
        " AND "@,
        m1,
        ", '-'), '0123456789'), '0123456789')"@,
        " IN ('', '.')"@,
        "substr("@,
        name,
        ", "@,
        " + 1, 1)"@,
        " GLOB '[-+]'"@,
        "length("@,
        ")"@,
        " > "@,
        " + 1"@,
        rest,
        " GLOB '[0-9]*'"@,
        "NOT ("@,
        " GLOB '*[^0-9]*'"@,
    );
    let front = mark + " > 1 AND "@;
    let tail = ", '-'), '0123456789'), '0123456789') IN ('', '.') AND substr("@;
    assert(front + m1 =~= front + m + " GLOB '[-0-9]*' AND NOT ("@ + m
        + " GLOB '?*-*') AND ltrim("@ + m + ", '-') GLOB '*[0-9]*' AND rtrim(ltrim(ltrim("@ + m);
}

pub(crate) proof fn lemma_float_spelling(name: Seq<char>)
    ensures
        sqlite_spelling(sqlite_float(), name) == "CASE WHEN "@
            + crate::metadata_provider_sqlite::float_text(name) + " THEN CAST("@ + name
            + " AS REAL) END"@,
{
    lemma_fixed_decimal_spelling(name);
    lemma_scientific_spelling(name);
    let f = sqlite_spelling(sqlite_fixed_decimal(), name);
    let s = sqlite_spelling(sqlite_scientific(), name);
    let a = SqliteExpr::Brackets(Box::new(sqlite_fixed_decimal()));
    let b = SqliteExpr::Brackets(Box::new(sqlite_scientific()));
    let or = SqliteExpr::Or(Box::new(a), Box::new(b));
    let all = SqliteExpr::Brackets(Box::new(or));
    let cast = SqliteExpr::CastReal(Box::new(SqliteExpr::Statistic));
    assert(sqlite_spelling(a, name) == "("@ + f + ")"@);
    assert(sqlite_spelling(b, name) == "("@ + s + ")"@);
    assert(sqlite_spelling(or, name) == sqlite_spelling(a, name) + " OR "@ + sqlite_spelling(
        b,
        name,
    ));
    assert(sqlite_spelling(all, name) == "("@ + sqlite_spelling(or, name) + ")"@);
    assert(sqlite_spelling(SqliteExpr::Statistic, name) == name);
    assert(sqlite_spelling(cast, name) == "CAST("@ + name + " AS REAL)"@);
    assert(sqlite_spelling(sqlite_float(), name) == "CASE WHEN "@ + sqlite_spelling(all, name)
        + " THEN "@ + sqlite_spelling(cast, name) + " END"@);
    reveal_strlit("(");
    reveal_strlit(")");
    reveal_strlit("((");
    reveal_strlit(" OR ");
    reveal_strlit(") OR (");
    reveal_strlit("))");
    reveal_strlit(" THEN ");
    reveal_strlit("CAST(");
    reveal_strlit(" THEN CAST(");
    reveal_strlit(" AS REAL)");
    reveal_strlit(" END");
    reveal_strlit(" AS REAL) END");
    assert("("@ + "("@ =~= "(("@);
    assert(")"@ + " OR "@ + "("@ =~= ") OR ("@);
    assert(")"@ + ")"@ =~= "))"@);
    assert(" THEN "@ + "CAST("@ =~= " THEN CAST("@);
    assert(" AS REAL)"@ + " END"@ =~= " AS REAL) END"@);
    let (o, c, i) = ("("@, ")"@, " OR "@);
    assert(o + ((o + f + c) + i + (o + s + c)) + c =~= (o + o) + f + (c + i + o) + s + (c + c));
    let front = "CASE WHEN "@ + crate::metadata_provider_sqlite::float_text(name);
    assert(front + " THEN "@ + ("CAST("@ + name + " AS REAL)"@) + " END"@ =~= front + (" THEN "@
        + "CAST("@) + name + (" AS REAL)"@ + " END"@));
}

} // verus!
