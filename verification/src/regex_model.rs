//! What DuckDB, PostgreSQL and MySQL make of the expressions that statistics are
//! compared by: a test by a regular expression, and a cast of what passes it.
//!
//! As in `sql_model`, an expression is given a spelling and a value, and the laws say of
//! the SQL that a dialect writes how the value of a statistic compares.

use vstd::prelude::*;

use crate::metadata_provider_duckdb::duckdb_cast_text;
use crate::metadata_provider_mysql::mysql_cast_text;
use crate::metadata_provider_postgres::postgres_cast_text;
use crate::scan::{is_digit, lemma_digits_of_nat, lemma_number_is_read_back, signed_value};
use crate::text::{int_text, nat_text};
use crate::types::{DataType, TimeUnit};

verus! {

// ---------------------------------------------------------------------------
// Regular expressions
// ---------------------------------------------------------------------------

/// A set of characters, in the spellings that are used.
pub enum CharSet {
    /// `[0-9]`
    Digit,
    /// `[1-9]`
    NotZero,
    /// `[-+]`
    Sign,
    /// `[.]`
    Dot,
    /// `[+]`
    Plus,
    /// A character behind a backslash.
    Escaped(char),
    /// A character that stands for itself.
    Plain(char),
}

/// How often a character of a set stands.
pub enum Times {
    Once,
    /// `?`
    Optional,
    /// `*`
    Any,
    /// `+`
    More,
    /// `{n}`
    Exactly(nat),
    /// `{low,high}`
    Between(nat, nat),
}

/// A regular expression.
pub enum Regex {
    Chars(CharSet, Times),
    Then(Box<Regex>, Box<Regex>),
    Either(Box<Regex>, Box<Regex>),
    Group(Box<Regex>),
    /// `(..)?`
    OptionalGroup(Box<Regex>),
}

pub open spec fn set_text(set: CharSet) -> Seq<char> {
    match set {
        CharSet::Digit => seq!['[', '0', '-', '9', ']'],
        CharSet::NotZero => seq!['[', '1', '-', '9', ']'],
        CharSet::Sign => seq!['[', '-', '+', ']'],
        CharSet::Dot => seq!['[', '.', ']'],
        CharSet::Plus => seq!['[', '+', ']'],
        CharSet::Escaped(c) => seq!['\\', c],
        CharSet::Plain(c) => seq![c],
    }
}

pub open spec fn times_text(times: Times) -> Seq<char> {
    match times {
        Times::Once => Seq::empty(),
        Times::Optional => seq!['?'],
        Times::Any => seq!['*'],
        Times::More => seq!['+'],
        Times::Exactly(n) => seq!['{'] + nat_text(n) + seq!['}'],
        Times::Between(low, high) => seq!['{'] + nat_text(low) + seq![','] + nat_text(high)
            + seq!['}'],
    }
}

/// How a regular expression is spelled.
pub open spec fn regex_text(regex: Regex) -> Seq<char>
    decreases regex,
{
    match regex {
        Regex::Chars(set, times) => set_text(set) + times_text(times),
        Regex::Then(a, b) => regex_text(*a) + regex_text(*b),
        Regex::Either(a, b) => regex_text(*a) + seq!['|'] + regex_text(*b),
        Regex::Group(a) => seq!['('] + regex_text(*a) + seq![')'],
        Regex::OptionalGroup(a) => seq!['('] + regex_text(*a) + seq![')', '?'],
    }
}

pub open spec fn in_set(set: CharSet, c: char) -> bool {
    match set {
        CharSet::Digit => '0' <= c <= '9',
        CharSet::NotZero => '1' <= c <= '9',
        CharSet::Sign => c == '-' || c == '+',
        CharSet::Dot => c == '.',
        CharSet::Plus => c == '+',
        CharSet::Escaped(d) => c == d,
        CharSet::Plain(d) => c == d,
    }
}

pub open spec fn is_often_enough(times: Times, n: nat) -> bool {
    match times {
        Times::Once => n == 1,
        Times::Optional => n <= 1,
        Times::Any => true,
        Times::More => n >= 1,
        Times::Exactly(m) => n == m,
        Times::Between(low, high) => low <= n <= high,
    }
}

/// Whether `k` is a place to cut a text of this length in two.
pub open spec fn is_cut(k: int, length: nat) -> bool {
    0 <= k <= length
}

/// Whether a regular expression matches a text from its first to its last character.
pub open spec fn regex_matches(regex: Regex, text: Seq<char>) -> bool
    decreases regex,
{
    match regex {
        Regex::Chars(set, times) => is_often_enough(times, text.len()) && forall|i: int|
            0 <= i < text.len() ==> in_set(set, #[trigger] text[i]),
        Regex::Then(a, b) => exists|k: int| #[trigger]
            is_cut(k, text.len()) && regex_matches(*a, text.take(k)) && regex_matches(
                *b,
                text.skip(k),
            ),
        Regex::Either(a, b) => regex_matches(*a, text) || regex_matches(*b, text),
        Regex::Group(a) => regex_matches(*a, text),
        Regex::OptionalGroup(a) => text.len() == 0 || regex_matches(*a, text),
    }
}

pub open spec fn in_turn(a: Regex, b: Regex) -> Regex {
    Regex::Then(Box::new(a), Box::new(b))
}

// ---------------------------------------------------------------------------
// Casts
// ---------------------------------------------------------------------------

/// What a statistic is compared as.
pub enum CastValue {
    Null,
    Integer(int),
    Text(Seq<char>),
    /// What text spells in a type that holds it as a whole.
    Of(Seq<char>, Seq<char>),
}

/// The integers that a type of one of the databases holds, where it is one for whole
/// numbers.
pub open spec fn integers_of(name: Seq<char>) -> Option<(int, int)> {
    if name == "TINYINT"@ {
        Some((-128, 127))
    } else if name == "SMALLINT"@ {
        Some((-32_768, 32_767))
    } else if name == "INTEGER"@ {
        Some((-2_147_483_648, 2_147_483_647))
    } else if name == "BIGINT"@ {
        Some((i64::MIN as int, i64::MAX as int))
    } else if name == "UTINYINT"@ {
        Some((0, 255))
    } else if name == "USMALLINT"@ {
        Some((0, 65_535))
    } else if name == "UINTEGER"@ {
        Some((0, 4_294_967_295))
    } else if name == "UBIGINT"@ {
        Some((0, u64::MAX as int))
    } else if name == "numeric"@ || name == "DECIMAL(65, 0)"@ {
        Some((-1_000_000_000_000_000_000_000_000, 1_000_000_000_000_000_000_000_000))
    } else {
        None
    }
}

/// What a cast of text gives: the whole number that it spells, where the type is one for
/// whole numbers and holds it.
pub open spec fn cast_value(text: Seq<char>, name: Seq<char>) -> CastValue {
    match integers_of(name) {
        Some((low, high)) => match signed_value(text) {
            Some(n) => if low <= n <= high {
                CastValue::Integer(n)
            } else {
                CastValue::Null
            },
            None => CastValue::Null,
        },
        None => CastValue::Of(name, text),
    }
}

/// The integers that a column type has.
pub open spec fn integers_of_column(data_type: DataType) -> Option<(int, int)> {
    match data_type {
        DataType::Int8 => Some((-128, 127)),
        DataType::Int16 => Some((-32_768, 32_767)),
        DataType::Int32 => Some((-2_147_483_648, 2_147_483_647)),
        DataType::Int64 => Some((i64::MIN as int, i64::MAX as int)),
        DataType::UInt8 => Some((0, 255)),
        DataType::UInt16 => Some((0, 65_535)),
        DataType::UInt32 => Some((0, 4_294_967_295)),
        DataType::UInt64 => Some((0, u64::MAX as int)),
        _ => None,
    }
}

/// Whether a column type has the integer `n`.
pub open spec fn fits_column(data_type: DataType, n: int) -> bool {
    integers_of_column(data_type) matches Some((low, high)) && low <= n <= high
}

/// A statistic that passes a test is cast, and any other is `NULL`.
pub open spec fn tested_cast(regex: Regex, name: Seq<char>, statistic: Seq<char>) -> CastValue {
    if regex_matches(regex, statistic) {
        cast_value(statistic, name)
    } else {
        CastValue::Null
    }
}

/// A statistic that passes a test is compared as the text that it is, and any other is
/// `NULL`.
pub open spec fn tested_text(regex: Regex, statistic: Seq<char>) -> CastValue {
    if regex_matches(regex, statistic) {
        CastValue::Text(statistic)
    } else {
        CastValue::Null
    }
}

/// A test and a cast, as DuckDB spells them.
pub open spec fn duckdb_spelling(regex: Regex, target: Seq<char>, name: Seq<char>) -> Seq<char> {
    "CASE WHEN regexp_full_match("@ + name + ", '"@ + (seq!['^'] + regex_text(regex) + seq!['$'])
        + "') THEN TRY_CAST("@ + name + " AS "@ + target + ") END"@
}

/// A test and a cast, as PostgreSQL spells them; newer servers are asked besides whether
/// the cast can fail.
pub open spec fn postgres_spelling(
    regex: Regex,
    target: Seq<char>,
    name: Seq<char>,
    validates: bool,
) -> Seq<char> {
    "CASE WHEN ("@ + name + " COLLATE \"C\") ~ '"@ + (seq!['^'] + regex_text(regex) + seq!['$'])
        + "'"@ + (if validates {
        " AND pg_input_is_valid("@ + name + ", '"@ + target + "')"@
    } else {
        Seq::empty()
    }) + " THEN CAST("@ + name + " AS "@ + target + ") END"@
}

/// A test of text that is compared as such, as PostgreSQL spells it.
pub open spec fn postgres_text_spelling(regex: Regex, name: Seq<char>) -> Seq<char> {
    "CASE WHEN ("@ + name + " COLLATE \"C\") ~ '"@ + (seq!['^'] + regex_text(regex) + seq!['$'])
        + "' THEN ("@ + name + " COLLATE \"C\") END"@
}

/// A test and a cast, as MySQL spells them.
pub open spec fn mysql_spelling(regex: Regex, target: Seq<char>, name: Seq<char>) -> Seq<char> {
    "CASE WHEN "@ + name + " REGEXP '"@ + (seq!['^'] + regex_text(regex) + seq!['$'])
        + "' THEN CAST("@ + name + " AS "@ + target + ") END"@
}

/// Text compared byte by byte, as MySQL spells it.
pub open spec fn mysql_bytes(name: Seq<char>) -> Seq<char> {
    "CONVERT("@ + name + " USING utf8mb4) COLLATE utf8mb4_0900_bin"@
}

/// A test of text that is compared as such, as MySQL spells it: what the expression finds
/// from the start of the text on has to be the whole of it.
pub open spec fn mysql_text_spelling(regex: Regex, name: Seq<char>) -> Seq<char> {
    "CASE WHEN "@ + mysql_bytes(name) + " = REGEXP_SUBSTR("@ + mysql_bytes(name) + ", '"@ + (
    seq!['^'] + regex_text(regex)) + "') THEN "@ + mysql_bytes(name) + " END"@
}

// ---------------------------------------------------------------------------
// Whole numbers
// ---------------------------------------------------------------------------

/// An optional minus and digits.
pub open spec fn signed_digits(most: nat) -> Regex {
    in_turn(
        Regex::Chars(CharSet::Plain('-'), Times::Optional),
        Regex::Chars(CharSet::Digit, Times::Between(1, most)),
    )
}

/// An optional point and digits behind it, with the point spelled as given.
pub open spec fn fraction(dot: CharSet, most: nat) -> Regex {
    Regex::OptionalGroup(
        Box::new(
            in_turn(
                Regex::Chars(dot, Times::Once),
                Regex::Chars(CharSet::Digit, Times::Between(1, most)),
            ),
        ),
    )
}

proof fn lemma_integer_length(n: int)
    requires
        -1_000_000_000_000_000_000_000 < n < 100_000_000_000_000_000_000,
        n > -100_000_000_000_000_000_000,
    ensures
        n < 0 ==> 1 <= nat_text((-n) as nat).len() <= 20,
        n >= 0 ==> 1 <= nat_text(n as nat).len() <= 20,
{
    let m = if n < 0 {
        (-n) as nat
    } else {
        n as nat
    };
    lemma_digits_of_nat(m);
    if nat_text(m).len() > 20 {
        let k = (nat_text(m).len() - 1) as nat;
        vstd::arithmetic::power::lemma_pow_increases(10, 20, k);
        reveal_with_fuel(vstd::arithmetic::power::pow, 21);
        assert(vstd::arithmetic::power::pow(10, 20) == 100_000_000_000_000_000_000);
    }
}

proof fn lemma_signed_digits(n: int, most: nat)
    requires
        -100_000_000_000_000_000_000 < n < 100_000_000_000_000_000_000,
        most >= 20,
    ensures
        regex_matches(signed_digits(most), int_text(n)),
{
    reveal_with_fuel(regex_matches, 3);
    lemma_integer_length(n);
    let text = int_text(n);
    if n < 0 {
        lemma_digits_of_nat((-n) as nat);
        assert(text.take(1) =~= seq!['-']);
        assert(text.skip(1) =~= nat_text((-n) as nat));
        assert(is_cut(1, text.len()));
    } else {
        lemma_digits_of_nat(n as nat);
        assert(text.take(0) =~= Seq::empty());
        assert(text.skip(0) =~= text);
        assert(is_cut(0, text.len()));
    }
}

proof fn lemma_signed_digits_text()
    ensures
        seq!['^'] + regex_text(signed_digits(20)) + seq!['$'] == "^-?[0-9]{1,20}$"@,
{
    reveal_with_fuel(regex_text, 3);
    reveal_with_fuel(nat_text, 3);
    reveal_strlit("^-?[0-9]{1,20}$");
    assert(nat_text(1) =~= seq!['1']);
    assert(nat_text(20) =~= seq!['2', '0']);
    assert(seq!['^'] + regex_text(signed_digits(20)) + seq!['$'] =~= "^-?[0-9]{1,20}$"@);
}

/// A bound of an integer column is compared as the integer that it is, in DuckDB: every
/// integer that the column can have passes the test and fits the type that it is cast
/// to.
pub proof fn lemma_duckdb_integer_bounds(
    name: Seq<char>,
    constant: Seq<char>,
    data_type: DataType,
)
    requires
        integers_of_column(data_type) is Some,
    ensures
        duckdb_cast_text(name, constant, data_type) matches Some(sql) && exists|
            regex: Regex,
            target: Seq<char>,
        |
            #![trigger duckdb_spelling(regex, target, name)]
            duckdb_spelling(regex, target, name) == sql && (forall|n: int|
                fits_column(data_type, n)
                    ==> #[trigger] tested_cast(regex, target, int_text(n)) == CastValue::Integer(
                    n,
                )),
{
    lemma_signed_digits_text();
    let regex = signed_digits(20);
    let target = crate::metadata_provider_duckdb::cast_type(data_type)->0;
    let sql = duckdb_cast_text(name, constant, data_type)->0;
    lemma_integer_type_names();
    assert(integers_of(target) == integers_of_column(data_type));
    assert(duckdb_spelling(regex, target, name) == sql);
    assert forall|n: int|
        fits_column(data_type, n) implies #[trigger] tested_cast(regex, target, int_text(n)) == CastValue::Integer(
        n,
    ) by {
        lemma_signed_digits(n, 20);
        lemma_number_is_read_back(n);
    }
}

/// The names of the types are different ones.
proof fn lemma_integer_type_names()
    ensures
        "TINYINT"@ != "SMALLINT"@,
        "TINYINT"@ != "INTEGER"@,
        "TINYINT"@ != "BIGINT"@,
        "TINYINT"@ != "UTINYINT"@,
        "TINYINT"@ != "USMALLINT"@,
        "TINYINT"@ != "UINTEGER"@,
        "TINYINT"@ != "UBIGINT"@,
        "SMALLINT"@ != "INTEGER"@,
        "SMALLINT"@ != "BIGINT"@,
        "SMALLINT"@ != "UTINYINT"@,
        "SMALLINT"@ != "USMALLINT"@,
        "SMALLINT"@ != "UINTEGER"@,
        "SMALLINT"@ != "UBIGINT"@,
        "INTEGER"@ != "BIGINT"@,
        "INTEGER"@ != "UTINYINT"@,
        "INTEGER"@ != "USMALLINT"@,
        "INTEGER"@ != "UINTEGER"@,
        "INTEGER"@ != "UBIGINT"@,
        "BIGINT"@ != "UTINYINT"@,
        "BIGINT"@ != "USMALLINT"@,
        "BIGINT"@ != "UINTEGER"@,
        "BIGINT"@ != "UBIGINT"@,
        "UTINYINT"@ != "USMALLINT"@,
        "UTINYINT"@ != "UINTEGER"@,
        "UTINYINT"@ != "UBIGINT"@,
        "USMALLINT"@ != "UINTEGER"@,
        "USMALLINT"@ != "UBIGINT"@,
        "UINTEGER"@ != "UBIGINT"@,
{
    reveal_strlit("TINYINT");
    reveal_strlit("SMALLINT");
    reveal_strlit("INTEGER");
    reveal_strlit("BIGINT");
    reveal_strlit("UTINYINT");
    reveal_strlit("USMALLINT");
    reveal_strlit("UINTEGER");
    reveal_strlit("UBIGINT");
    assert("TINYINT"@[0] == 'T' && "SMALLINT"@[0] == 'S' && "INTEGER"@[0] == 'I' && "BIGINT"@[0]
        == 'B');
    assert("UTINYINT"@[1] == 'T' && "USMALLINT"@[1] == 'S' && "UINTEGER"@[1] == 'I' && "UBIGINT"@[1]
        == 'B');
    assert("UTINYINT"@[0] == 'U' && "USMALLINT"@[0] == 'U' && "UINTEGER"@[0] == 'U' && "UBIGINT"@[0]
        == 'U');
}

/// A bound of an integer column is compared as the integer that it is, in MySQL: every
/// integer that the column can have passes the test, and the type that it is cast to
/// holds it without a fraction.
pub proof fn lemma_mysql_integer_bounds(name: Seq<char>, constant: Seq<char>, data_type: DataType)
    requires
        integers_of_column(data_type) is Some,
    ensures
        mysql_cast_text(name, constant, data_type) matches Some(sql) && exists|
            regex: Regex,
            target: Seq<char>,
        |
            #![trigger mysql_spelling(regex, target, name)]
            mysql_spelling(regex, target, name) == sql && (forall|n: int|
                fits_column(data_type, n)
                    ==> #[trigger] tested_cast(regex, target, int_text(n)) == CastValue::Integer(
                    n,
                )),
{
    lemma_signed_digits_text();
    let regex = signed_digits(20);
    let target = "DECIMAL(65, 0)"@;
    let sql = mysql_cast_text(name, constant, data_type)->0;
    lemma_exact_type_names();
    assert(mysql_spelling(regex, target, name) == sql);
    assert forall|n: int|
        fits_column(data_type, n) implies #[trigger] tested_cast(regex, target, int_text(n)) == CastValue::Integer(
        n,
    ) by {
        lemma_signed_digits(n, 20);
        lemma_number_is_read_back(n);
    }
}

proof fn lemma_exact_type_names()
    ensures
        integers_of("DECIMAL(65, 0)"@) == Some(
            (-1_000_000_000_000_000_000_000_000int, 1_000_000_000_000_000_000_000_000int),
        ),
        integers_of("numeric"@) == Some(
            (-1_000_000_000_000_000_000_000_000int, 1_000_000_000_000_000_000_000_000int),
        ),
{
    reveal_strlit("DECIMAL(65, 0)");
    reveal_strlit("numeric");
    reveal_strlit("TINYINT");
    reveal_strlit("SMALLINT");
    reveal_strlit("INTEGER");
    reveal_strlit("BIGINT");
    reveal_strlit("UTINYINT");
    reveal_strlit("USMALLINT");
    reveal_strlit("UINTEGER");
    reveal_strlit("UBIGINT");
    assert("DECIMAL(65, 0)"@[0] == 'D' && "numeric"@[0] == 'n');
    assert("TINYINT"@[0] == 'T' && "SMALLINT"@[0] == 'S' && "INTEGER"@[0] == 'I' && "BIGINT"@[0]
        == 'B');
    assert("UTINYINT"@[0] == 'U' && "USMALLINT"@[0] == 'U' && "UINTEGER"@[0] == 'U' && "UBIGINT"@[0]
        == 'U');
}

/// Digits with an optional minus in front and an optional fraction behind.
pub open spec fn decimal_digits(dot: CharSet, whole: nat, behind: nat) -> Regex {
    in_turn(signed_digits(whole), fraction(dot, behind))
}

proof fn lemma_numeric_text()
    ensures
        seq!['^'] + regex_text(decimal_digits(CharSet::Escaped('.'), 255, 255)) + seq!['$']
            == "^-?[0-9]{1,255}(\\.[0-9]{1,255})?$"@,
{
    reveal_with_fuel(regex_text, 5);
    reveal_with_fuel(nat_text, 4);
    reveal_strlit("^-?[0-9]{1,255}(\\.[0-9]{1,255})?$");
    assert(nat_text(1) =~= seq!['1']);
    assert(nat_text(255) =~= seq!['2', '5', '5']);
    assert(seq!['^'] + regex_text(decimal_digits(CharSet::Escaped('.'), 255, 255)) + seq!['$']
        =~= "^-?[0-9]{1,255}(\\.[0-9]{1,255})?$"@);
}

/// A bound of an integer column is compared as the integer that it is, in PostgreSQL, on
/// old servers and new ones.
pub proof fn lemma_postgres_integer_bounds(
    name: Seq<char>,
    constant: Seq<char>,
    data_type: DataType,
    validates: bool,
)
    requires
        integers_of_column(data_type) is Some,
    ensures
        postgres_cast_text(name, constant, data_type, validates) matches Some(sql) && exists|
            regex: Regex,
            target: Seq<char>,
        |
            #![trigger postgres_spelling(regex, target, name, validates)]
            postgres_spelling(regex, target, name, validates) == sql && (forall|n: int|
                fits_column(data_type, n)
                    ==> #[trigger] tested_cast(regex, target, int_text(n)) == CastValue::Integer(
                    n,
                )),
{
    lemma_numeric_text();
    let regex = decimal_digits(CharSet::Escaped('.'), 255, 255);
    let target = "numeric"@;
    let sql = postgres_cast_text(name, constant, data_type, validates)->0;
    lemma_exact_type_names();
    lemma_postgres_spelling(regex, target, name, validates);
    reveal_strlit("boolean");
    reveal_strlit("numeric");
    assert("boolean"@[0] == 'b' && "numeric"@[0] == 'n');
    assert(postgres_spelling(regex, target, name, validates) == sql);
    assert forall|n: int|
        fits_column(data_type, n) implies #[trigger] tested_cast(regex, target, int_text(n)) == CastValue::Integer(
        n,
    ) by {
        lemma_signed_digits(n, 255);
        lemma_number_is_read_back(n);
        let text = int_text(n);
        assert(text.take(text.len() as int) =~= text);
        assert(text.skip(text.len() as int) =~= Seq::empty());
        assert(is_cut(text.len() as int, text.len()));
        reveal_with_fuel(regex_matches, 2);
    }
}

/// Sums of text may be bracketed in any way.
proof fn lemma_postgres_spelling(
    regex: Regex,
    target: Seq<char>,
    name: Seq<char>,
    validates: bool,
)
    ensures
        postgres_spelling(regex, target, name, validates) == "CASE WHEN "@
            + crate::metadata_provider_postgres::cast_guard(
            name,
            seq!['^'] + regex_text(regex) + seq!['$'],
            target,
            validates,
        ) + " THEN CAST("@ + name + " AS "@ + target + ") END"@,
{
    reveal_strlit("CASE WHEN (");
    reveal_strlit("CASE WHEN ");
    reveal_strlit("(");
    let pattern = seq!['^'] + regex_text(regex) + seq!['$'];
    let shape = "("@ + name + " COLLATE \"C\") ~ '"@ + pattern + "'"@;
    assert("CASE WHEN "@ + "("@ =~= "CASE WHEN ("@);
    assert("CASE WHEN "@ + shape =~= "CASE WHEN ("@ + name + " COLLATE \"C\") ~ '"@ + pattern
        + "'"@);
    let tail = " AND pg_input_is_valid("@ + name + ", '"@ + target + "')"@;
    if validates {
        assert("CASE WHEN "@ + (shape + " AND pg_input_is_valid("@ + name + ", '"@ + target + "')"@)
            =~= ("CASE WHEN "@ + shape) + tail);
    } else {
        assert(("CASE WHEN "@ + shape) + Seq::empty() =~= "CASE WHEN "@ + shape);
    }
}

// ---------------------------------------------------------------------------
// Dates and timestamps
// ---------------------------------------------------------------------------

pub open spec fn digits_times(n: nat) -> Regex {
    Regex::Chars(CharSet::Digit, Times::Exactly(n))
}

pub open spec fn plain(c: char) -> Regex {
    Regex::Chars(CharSet::Plain(c), Times::Once)
}

/// How many characters a set stands for that stands a fixed number of times.
pub open spec fn fixed_width(times: Times) -> Option<nat> {
    match times {
        Times::Once => Some(1),
        Times::Exactly(n) => Some(n),
        _ => None,
    }
}

/// A part of fixed width matches that many characters, and the rest has to match what
/// follows.
proof fn lemma_fixed(set: CharSet, times: Times, rest: Regex, text: Seq<char>)
    requires
        fixed_width(times) is Some,
    ensures
        regex_matches(in_turn(Regex::Chars(set, times), rest), text) <==> text.len() >= fixed_width(
            times,
        )->0 && (forall|i: int|
            0 <= i < fixed_width(times)->0 ==> in_set(set, #[trigger] text[i])) && regex_matches(
            rest,
            text.skip(fixed_width(times)->0 as int),
        ),
{
    let n = fixed_width(times)->0 as int;
    let first = Regex::Chars(set, times);
    reveal_with_fuel(regex_matches, 2);
    if regex_matches(in_turn(first, rest), text) {
        let k = choose|k: int| #[trigger]
            is_cut(k, text.len()) && regex_matches(first, text.take(k)) && regex_matches(
                rest,
                text.skip(k),
            );
        assert(k == n);
        assert forall|i: int| 0 <= i < n implies in_set(set, #[trigger] text[i]) by {
            assert(text.take(k)[i] == text[i]);
        }
    }
    if text.len() >= n && (forall|i: int| 0 <= i < n ==> in_set(set, #[trigger] text[i]))
        && regex_matches(rest, text.skip(n)) {
        assert(is_cut(n, text.len()));
        assert(regex_matches(first, text.take(n)));
    }
}

/// `YYYY-MM-DD`, and what follows.
pub open spec fn date_then(rest: Regex) -> Regex {
    in_turn(
        digits_times(4),
        in_turn(plain('-'), in_turn(digits_times(2), in_turn(plain('-'), rest))),
    )
}

/// `HH:MM:` behind a space, and what follows.
pub open spec fn minutes_then(rest: Regex) -> Regex {
    in_turn(
        plain(' '),
        in_turn(
            digits_times(2),
            in_turn(plain(':'), in_turn(digits_times(2), in_turn(plain(':'), rest))),
        ),
    )
}

/// Whether a text starts with a date, up to the `-` in front of the day.
pub open spec fn starts_with_month(text: Seq<char>) -> bool {
    &&& text.len() >= 8
    &&& '0' <= text[0] <= '9' && '0' <= text[1] <= '9' && '0' <= text[2] <= '9' && '0' <= text[3]
        <= '9'
    &&& text[4] == '-' && '0' <= text[5] <= '9' && '0' <= text[6] <= '9' && text[7] == '-'
}

/// Whether a text is `YYYY-MM-DD`, in digits.
pub open spec fn is_day(text: Seq<char>) -> bool {
    &&& text.len() == 10
    &&& starts_with_month(text)
    &&& '0' <= text[8] <= '9' && '0' <= text[9] <= '9'
}

/// Whether a text starts with `YYYY-MM-DD HH:MM:SS`, in digits.
pub open spec fn starts_with_second(text: Seq<char>) -> bool {
    &&& text.len() >= 19
    &&& starts_with_month(text)
    &&& '0' <= text[8] <= '9' && '0' <= text[9] <= '9' && text[10] == ' '
    &&& '0' <= text[11] <= '9' && '0' <= text[12] <= '9' && text[13] == ':'
    &&& '0' <= text[14] <= '9' && '0' <= text[15] <= '9' && text[16] == ':'
    &&& '0' <= text[17] <= '9' && '0' <= text[18] <= '9'
}

/// Whether all characters from `from` on are digits.
pub open spec fn digits_from(text: Seq<char>, from: int) -> bool {
    forall|i: int| from <= i < text.len() ==> '0' <= #[trigger] text[i] <= '9'
}

proof fn lemma_date_then(rest: Regex, text: Seq<char>)
    ensures
        regex_matches(date_then(rest), text) <==> starts_with_month(text) && regex_matches(
            rest,
            text.skip(8),
        ),
{
    let r3 = in_turn(plain('-'), rest);
    let r2 = in_turn(digits_times(2), r3);
    let r1 = in_turn(plain('-'), r2);
    lemma_fixed(CharSet::Digit, Times::Exactly(4), r1, text);
    if text.len() >= 4 {
        let t1 = text.skip(4);
        lemma_fixed(CharSet::Plain('-'), Times::Once, r2, t1);
        if t1.len() >= 1 {
            let t2 = t1.skip(1);
            lemma_fixed(CharSet::Digit, Times::Exactly(2), r3, t2);
            if t2.len() >= 2 {
                let t3 = t2.skip(2);
                lemma_fixed(CharSet::Plain('-'), Times::Once, rest, t3);
                assert(t2 =~= text.skip(5));
                assert(t3 =~= text.skip(7));
                if t3.len() >= 1 {
                    assert(t3.skip(1) =~= text.skip(8));
                    assert(t1[0] == text[4] && t2[0] == text[5] && t2[1] == text[6] && t3[0]
                        == text[7]);
                }
            }
        }
    }
}

proof fn lemma_day(text: Seq<char>)
    ensures
        regex_matches(date_then(digits_times(2)), text) <==> is_day(text),
{
    lemma_date_then(digits_times(2), text);
    let rest = text.skip(8);
    if text.len() >= 10 {
        assert(rest[0] == text[8] && rest[1] == text[9]);
    }
}

/// `YYYY-MM-DD HH:MM:SS`, and what follows.
pub open spec fn seconds_then(rest: Regex) -> Regex {
    date_then(in_turn(digits_times(2), minutes_then(in_turn(digits_times(2), rest))))
}

proof fn lemma_seconds_then(rest: Regex, text: Seq<char>)
    ensures
        regex_matches(seconds_then(rest), text) <==> starts_with_second(text) && regex_matches(
            rest,
            text.skip(19),
        ),
{
    let r6 = in_turn(digits_times(2), rest);
    let r5 = in_turn(plain(':'), r6);
    let r4 = in_turn(digits_times(2), r5);
    let r3 = in_turn(plain(':'), r4);
    let r2 = in_turn(digits_times(2), r3);
    let r1 = in_turn(plain(' '), r2);
    let r0 = in_turn(digits_times(2), r1);
    lemma_date_then(r0, text);
    if text.len() >= 19 {
        let t0 = text.skip(8);
        lemma_fixed(CharSet::Digit, Times::Exactly(2), r1, t0);
        assert(t0.skip(2) =~= text.skip(10));
        lemma_fixed(CharSet::Plain(' '), Times::Once, r2, text.skip(10));
        assert(text.skip(10).skip(1) =~= text.skip(11));
        lemma_fixed(CharSet::Digit, Times::Exactly(2), r3, text.skip(11));
        assert(text.skip(11).skip(2) =~= text.skip(13));
        lemma_fixed(CharSet::Plain(':'), Times::Once, r4, text.skip(13));
        assert(text.skip(13).skip(1) =~= text.skip(14));
        lemma_fixed(CharSet::Digit, Times::Exactly(2), r5, text.skip(14));
        assert(text.skip(14).skip(2) =~= text.skip(16));
        lemma_fixed(CharSet::Plain(':'), Times::Once, r6, text.skip(16));
        assert(text.skip(16).skip(1) =~= text.skip(17));
        lemma_fixed(CharSet::Digit, Times::Exactly(2), rest, text.skip(17));
        assert(text.skip(17).skip(2) =~= text.skip(19));
        assert(t0[0] == text[8] && t0[1] == text[9] && text.skip(10)[0] == text[10] && text.skip(
            11,
        )[0] == text[11] && text.skip(11)[1] == text[12] && text.skip(13)[0] == text[13]
            && text.skip(14)[0] == text[14] && text.skip(14)[1] == text[15] && text.skip(16)[0]
            == text[16] && text.skip(17)[0] == text[17] && text.skip(17)[1] == text[18]);
    } else if text.len() >= 8 {
        lemma_at_least(r0, 11, text.skip(8), rest);
    }
}

/// Text that is too short for the parts of fixed width does not match.
proof fn lemma_at_least(regex: Regex, n: nat, text: Seq<char>, rest: Regex)
    requires
        n == 11,
        text.len() < n,
        regex == in_turn(digits_times(2), minutes_then(in_turn(digits_times(2), rest))),
    ensures
        !regex_matches(regex, text),
{
    let r6 = in_turn(digits_times(2), rest);
    let r5 = in_turn(plain(':'), r6);
    let r4 = in_turn(digits_times(2), r5);
    let r3 = in_turn(plain(':'), r4);
    let r2 = in_turn(digits_times(2), r3);
    let r1 = in_turn(plain(' '), r2);
    lemma_fixed(CharSet::Digit, Times::Exactly(2), r1, text);
    if text.len() >= 2 {
        let t = text.skip(2);
        lemma_fixed(CharSet::Plain(' '), Times::Once, r2, t);
        if t.len() >= 1 {
            let t = t.skip(1);
            lemma_fixed(CharSet::Digit, Times::Exactly(2), r3, t);
            if t.len() >= 2 {
                let t = t.skip(2);
                lemma_fixed(CharSet::Plain(':'), Times::Once, r4, t);
                if t.len() >= 1 {
                    let t = t.skip(1);
                    lemma_fixed(CharSet::Digit, Times::Exactly(2), r5, t);
                    if t.len() >= 2 {
                        let t = t.skip(2);
                        lemma_fixed(CharSet::Plain(':'), Times::Once, r6, t);
                        if t.len() >= 1 {
                            lemma_fixed(CharSet::Digit, Times::Exactly(2), rest, t.skip(1));
                        }
                    }
                }
            }
        }
    }
}

/// A point and one to nine digits, or nothing.
proof fn lemma_short_fraction(text: Seq<char>)
    ensures
        regex_matches(fraction(CharSet::Escaped('.'), 9), text) <==> text.len() == 0 || (2
            <= text.len() <= 10 && text[0] == '.' && digits_from(text, 1)),
{
    let digits = Regex::Chars(CharSet::Digit, Times::Between(1, 9));
    let inner = in_turn(Regex::Chars(CharSet::Escaped('.'), Times::Once), digits);
    reveal_with_fuel(regex_matches, 2);
    lemma_fixed(CharSet::Escaped('.'), Times::Once, digits, text);
    let rest = text.skip(1);
    if text.len() >= 1 {
        if regex_matches(digits, rest) {
            assert forall|i: int| 1 <= i < text.len() implies '0' <= #[trigger] text[i] <= '9' by {
                assert(rest[i - 1] == text[i]);
            }
        }
        if digits_from(text, 1) {
            assert forall|i: int| 0 <= i < rest.len() implies in_set(
                CharSet::Digit,
                #[trigger] rest[i],
            ) by {
                assert(rest[i] == text[i + 1]);
            }
        }
    }
}

/// A point and digits of which the last is not a zero, or nothing.
pub open spec fn trimmed_fraction() -> Regex {
    Regex::OptionalGroup(
        Box::new(
            in_turn(
                Regex::Chars(CharSet::Dot, Times::Once),
                in_turn(
                    Regex::Chars(CharSet::Digit, Times::Any),
                    Regex::Chars(CharSet::NotZero, Times::Once),
                ),
            ),
        ),
    )
}

proof fn lemma_trimmed_fraction(text: Seq<char>)
    ensures
        regex_matches(trimmed_fraction(), text) <==> text.len() == 0 || (text.len() >= 2 && text[0]
            == '.' && digits_from(text, 1) && text.last() != '0'),
{
    let any = Regex::Chars(CharSet::Digit, Times::Any);
    let one = Regex::Chars(CharSet::NotZero, Times::Once);
    let digits = in_turn(any, one);
    reveal_with_fuel(regex_matches, 2);
    lemma_fixed(CharSet::Dot, Times::Once, digits, text);
    if text.len() >= 1 {
        let rest = text.skip(1);
        if regex_matches(digits, rest) {
            let k = choose|k: int| #[trigger]
                is_cut(k, rest.len()) && regex_matches(any, rest.take(k)) && regex_matches(
                    one,
                    rest.skip(k),
                );
            assert(k == rest.len() - 1);
            assert(rest.skip(k)[0] == text.last());
            assert forall|i: int| 1 <= i < text.len() implies '0' <= #[trigger] text[i] <= '9' by {
                if i < text.len() - 1 {
                    assert(rest.take(k)[i - 1] == text[i]);
                }
            }
        }
        if text.len() >= 2 && digits_from(text, 1) && text.last() != '0' {
            let k = rest.len() - 1;
            assert(is_cut(k, rest.len()));
            assert forall|i: int| 0 <= i < k implies in_set(
                CharSet::Digit,
                #[trigger] rest.take(k)[i],
            ) by {
                assert(rest.take(k)[i] == text[i + 1]);
            }
            assert(rest.skip(k) =~= seq![text.last()]);
            assert(text[text.len() - 1] == text.last());
            assert(regex_matches(any, rest.take(k)));
            assert(regex_matches(one, rest.skip(k)));
        }
    }
}

/// `+00`, with the plus spelled as given.
pub open spec fn zero_offset(plus: CharSet) -> Regex {
    in_turn(Regex::Chars(plus, Times::Once), in_turn(plain('0'), plain('0')))
}

proof fn lemma_zero_offset(plus: CharSet, text: Seq<char>)
    requires
        plus == CharSet::Plus || plus == CharSet::Escaped('+'),
    ensures
        regex_matches(zero_offset(plus), text) <==> text.len() == 3 && text[0] == '+' && text[1]
            == '0' && text[2] == '0',
{
    lemma_fixed(plus, Times::Once, in_turn(plain('0'), plain('0')), text);
    if text.len() >= 1 {
        let t = text.skip(1);
        lemma_fixed(CharSet::Plain('0'), Times::Once, plain('0'), t);
        if t.len() >= 1 {
            assert(t[0] == text[1]);
            if t.len() >= 2 {
                assert(t.skip(1)[0] == text[2]);
            }
        }
    }
}

/// What stands in front of an offset is matched by the part in front of it.
proof fn lemma_before_offset(part: Regex, plus: CharSet, text: Seq<char>)
    requires
        plus == CharSet::Plus || plus == CharSet::Escaped('+'),
    ensures
        regex_matches(in_turn(part, zero_offset(plus)), text) <==> text.len() >= 3 && text[text.len()
            - 3] == '+' && text[text.len() - 2] == '0' && text[text.len() - 1] == '0'
            && regex_matches(part, text.take(text.len() - 3)),
{
    let end = zero_offset(plus);
    if regex_matches(in_turn(part, end), text) {
        let k = choose|k: int| #[trigger]
            is_cut(k, text.len()) && regex_matches(part, text.take(k)) && regex_matches(
                end,
                text.skip(k),
            );
        lemma_zero_offset(plus, text.skip(k));
        assert(k == text.len() - 3);
        assert(text.skip(k)[0] == text[k] && text.skip(k)[1] == text[k + 1] && text.skip(k)[2]
            == text[k + 2]);
    }
    if text.len() >= 3 && text[text.len() - 3] == '+' && text[text.len() - 2] == '0'
        && text[text.len() - 1] == '0' && regex_matches(part, text.take(text.len() - 3)) {
        let k = text.len() - 3;
        lemma_zero_offset(plus, text.skip(k));
        assert(text.skip(k)[0] == text[k] && text.skip(k)[1] == text[k + 1] && text.skip(k)[2]
            == text[k + 2]);
        assert(is_cut(k, text.len()));
    }
}

/// Whether a text is a timestamp with up to nine digits of a second.
pub open spec fn is_second(text: Seq<char>) -> bool {
    &&& starts_with_second(text)
    &&& text.len() == 19 || (21 <= text.len() <= 29 && text[19] == '.' && digits_from(text, 20))
}

/// Whether a text is a timestamp whose fraction, if it has one, ends in no zero.
pub open spec fn is_trimmed_second(text: Seq<char>) -> bool {
    &&& starts_with_second(text)
    &&& text.len() == 19 || (text.len() >= 21 && text[19] == '.' && digits_from(text, 20)
        && text.last() != '0')
}

/// Whether a text ends in `+00`.
pub open spec fn has_zero_offset(text: Seq<char>) -> bool {
    &&& text.len() >= 3
    &&& text[text.len() - 3] == '+'
    &&& text[text.len() - 2] == '0'
    &&& text[text.len() - 1] == '0'
}

proof fn lemma_digits_behind(text: Seq<char>)
    requires
        text.len() >= 19,
    ensures
        text.len() >= 20 ==> (text.skip(19)[0] == text[19] && (digits_from(text.skip(19), 1)
            <==> digits_from(text, 20)) && text.skip(19).last() == text.last()),
{
    let rest = text.skip(19);
    if text.len() >= 20 {
        if digits_from(rest, 1) {
            assert forall|i: int| 20 <= i < text.len() implies '0' <= #[trigger] text[i] <= '9' by {
                assert(rest[i - 19] == text[i]);
            }
        }
        if digits_from(text, 20) {
            assert forall|i: int| 1 <= i < rest.len() implies '0' <= #[trigger] rest[i] <= '9' by {
                assert(rest[i] == text[i + 19]);
            }
        }
    }
}

proof fn lemma_second(text: Seq<char>)
    ensures
        regex_matches(seconds_then(fraction(CharSet::Escaped('.'), 9)), text) <==> is_second(text),
        regex_matches(seconds_then(trimmed_fraction()), text) <==> is_trimmed_second(text),
{
    lemma_seconds_then(fraction(CharSet::Escaped('.'), 9), text);
    lemma_seconds_then(trimmed_fraction(), text);
    if text.len() >= 19 {
        lemma_short_fraction(text.skip(19));
        lemma_trimmed_fraction(text.skip(19));
        lemma_digits_behind(text);
    }
}

/// A part between the seconds and the offset.
proof fn lemma_offset_second(part: Regex, plus: CharSet, text: Seq<char>)
    requires
        plus == CharSet::Plus || plus == CharSet::Escaped('+'),
    ensures
        regex_matches(seconds_then(in_turn(part, zero_offset(plus))), text) <==> has_zero_offset(text)
            && regex_matches(seconds_then(part), text.take(text.len() - 3)),
{
    lemma_seconds_then(in_turn(part, zero_offset(plus)), text);
    if text.len() >= 19 {
        lemma_before_offset(part, plus, text.skip(19));
        let rest = text.skip(19);
        if text.len() >= 22 {
            let front = text.take(text.len() - 3);
            lemma_seconds_then(part, front);
            assert(front.skip(19) =~= rest.take(rest.len() - 3));
            assert(rest[rest.len() - 3] == text[text.len() - 3] && rest[rest.len() - 2]
                == text[text.len() - 2] && rest[rest.len() - 1] == text[text.len() - 1]);
            assert(starts_with_second(front) <==> starts_with_second(text)) by {
                assert(forall|i: int| 0 <= i < 19 ==> #[trigger] front[i] == text[i]);
            }
        } else if text.len() >= 3 {
            lemma_seconds_then(part, text.take(text.len() - 3));
        }
    } else if text.len() >= 3 {
        lemma_seconds_then(part, text.take(text.len() - 3));
    }
}

/// `true` or `false`.
pub open spec fn truth_regex() -> Regex {
    Regex::Group(
        Box::new(
            Regex::Either(
                Box::new(in_turn(plain('t'), in_turn(plain('r'), in_turn(plain('u'), plain('e'))))),
                Box::new(
                    in_turn(
                        plain('f'),
                        in_turn(plain('a'), in_turn(plain('l'), in_turn(plain('s'), plain('e')))),
                    ),
                ),
            ),
        ),
    )
}

proof fn lemma_one_char(c: char, rest: Regex, text: Seq<char>)
    ensures
        regex_matches(in_turn(plain(c), rest), text) <==> text.len() >= 1 && text[0] == c
            && regex_matches(rest, text.skip(1)),
{
    lemma_fixed(CharSet::Plain(c), Times::Once, rest, text);
}

proof fn lemma_truth(text: Seq<char>)
    ensures
        regex_matches(truth_regex(), text) <==> text == "true"@ || text == "false"@,
{
    reveal_strlit("true");
    reveal_strlit("false");
    reveal_with_fuel(regex_matches, 3);
    let e = plain('e');
    lemma_one_char('t', in_turn(plain('r'), in_turn(plain('u'), e)), text);
    lemma_one_char('r', in_turn(plain('u'), e), text.skip(1));
    lemma_one_char('u', e, text.skip(1).skip(1));
    lemma_one_char('f', in_turn(plain('a'), in_turn(plain('l'), in_turn(plain('s'), e))), text);
    lemma_one_char('a', in_turn(plain('l'), in_turn(plain('s'), e)), text.skip(1));
    lemma_one_char('l', in_turn(plain('s'), e), text.skip(1).skip(1));
    lemma_one_char('s', e, text.skip(1).skip(1).skip(1));
    if text.len() >= 1 {
        assert(forall|i: int| 0 <= i < text.len() - 1 ==> text.skip(1)[i] == #[trigger] text[i + 1]);
    }
    if regex_matches(truth_regex(), text) {
        if text[0] == 't' {
            assert(text =~= "true"@);
        } else {
            let t2 = text.skip(1).skip(1);
            let t3 = t2.skip(1);
            let t4 = t3.skip(1);
            assert(regex_matches(e, t4));
            assert(t4.len() == 1 && t4[0] == 'e');
            assert(text.len() == 5);
            assert(t2[0] == text[2] && t3[0] == text[3] && t4[0] == text[4]);
            assert(text =~= "false"@);
        }
    }
    if text == "true"@ {
        assert(text.skip(1).skip(1).skip(1) =~= seq!['e']);
        assert(text.skip(1)[0] == 'r' && text.skip(1).skip(1)[0] == 'u');
    }
    if text == "false"@ {
        assert(text.skip(1).skip(1).skip(1).skip(1) =~= seq!['e']);
        assert(text.skip(1)[0] == 'a' && text.skip(1).skip(1)[0] == 'l' && text.skip(1).skip(
            1,
        ).skip(1)[0] == 's');
    }
}

// ---------------------------------------------------------------------------
// How the expressions are spelled
// ---------------------------------------------------------------------------

proof fn lemma_small_numbers()
    ensures
        nat_text(1) == seq!['1'],
        nat_text(2) == seq!['2'],
        nat_text(4) == seq!['4'],
        nat_text(9) == seq!['9'],
        nat_text(38) == seq!['3', '8'],
{
    reveal_with_fuel(nat_text, 3);
    assert(nat_text(38) =~= seq!['3', '8']);
}

proof fn lemma_truth_text()
    ensures
        seq!['^'] + regex_text(truth_regex()) + seq!['$'] == "^(true|false)$"@,
{
    reveal_with_fuel(regex_text, 9);
    reveal_strlit("^(true|false)$");
    assert(seq!['^'] + regex_text(truth_regex()) + seq!['$'] =~= "^(true|false)$"@);
}

proof fn lemma_day_text()
    ensures
        seq!['^'] + regex_text(date_then(digits_times(2))) + seq!['$'] == "^[0-9]{4}-[0-9]{2}-[0-9]{2}$"@,
{
    reveal_with_fuel(regex_text, 16);
    lemma_small_numbers();
    reveal_strlit("^[0-9]{4}-[0-9]{2}-[0-9]{2}$");
    assert(seq!['^'] + regex_text(date_then(digits_times(2))) + seq!['$'] =~= "^[0-9]{4}-[0-9]{2}-[0-9]{2}$"@);
}

proof fn lemma_open_day_text()
    ensures
        seq!['^'] + regex_text(date_then(digits_times(2))) == "^[0-9]{4}-[0-9]{2}-[0-9]{2}"@,
{
    reveal_with_fuel(regex_text, 16);
    lemma_small_numbers();
    reveal_strlit("^[0-9]{4}-[0-9]{2}-[0-9]{2}");
    assert(seq!['^'] + regex_text(date_then(digits_times(2))) =~= "^[0-9]{4}-[0-9]{2}-[0-9]{2}"@);
}

proof fn lemma_second_text()
    ensures
        seq!['^'] + regex_text(seconds_then(fraction(CharSet::Escaped('.'), 9))) + seq!['$'] == "^[0-9]{4}-[0-9]{2}-[0-9]{2} [0-9]{2}:[0-9]{2}:[0-9]{2}(\\.[0-9]{1,9})?$"@,
{
    reveal_with_fuel(regex_text, 16);
    lemma_small_numbers();
    reveal_strlit("^[0-9]{4}-[0-9]{2}-[0-9]{2} [0-9]{2}:[0-9]{2}:[0-9]{2}(\\.[0-9]{1,9})?$");
    assert(seq!['^'] + regex_text(seconds_then(fraction(CharSet::Escaped('.'), 9))) + seq!['$'] =~= "^[0-9]{4}-[0-9]{2}-[0-9]{2} [0-9]{2}:[0-9]{2}:[0-9]{2}(\\.[0-9]{1,9})?$"@);
}

proof fn lemma_offset_second_text()
    ensures
        seq!['^'] + regex_text(seconds_then(in_turn(fraction(CharSet::Escaped('.'), 9), zero_offset(CharSet::Escaped('+'))))) + seq!['$'] == "^[0-9]{4}-[0-9]{2}-[0-9]{2} [0-9]{2}:[0-9]{2}:[0-9]{2}(\\.[0-9]{1,9})?\\+00$"@,
{
    reveal_with_fuel(regex_text, 18);
    lemma_small_numbers();
    reveal_strlit("^[0-9]{4}-[0-9]{2}-[0-9]{2} [0-9]{2}:[0-9]{2}:[0-9]{2}(\\.[0-9]{1,9})?\\+00$");
    assert(seq!['^'] + regex_text(seconds_then(in_turn(fraction(CharSet::Escaped('.'), 9), zero_offset(CharSet::Escaped('+'))))) + seq!['$'] =~= "^[0-9]{4}-[0-9]{2}-[0-9]{2} [0-9]{2}:[0-9]{2}:[0-9]{2}(\\.[0-9]{1,9})?\\+00$"@);
}

proof fn lemma_trimmed_text()
    ensures
        seq!['^'] + regex_text(seconds_then(trimmed_fraction())) + seq!['$'] == "^[0-9]{4}-[0-9]{2}-[0-9]{2} [0-9]{2}:[0-9]{2}:[0-9]{2}([.][0-9]*[1-9])?$"@,
{
    reveal_with_fuel(regex_text, 16);
    lemma_small_numbers();
    reveal_strlit("^[0-9]{4}-[0-9]{2}-[0-9]{2} [0-9]{2}:[0-9]{2}:[0-9]{2}([.][0-9]*[1-9])?$");
    assert(seq!['^'] + regex_text(seconds_then(trimmed_fraction())) + seq!['$'] =~= "^[0-9]{4}-[0-9]{2}-[0-9]{2} [0-9]{2}:[0-9]{2}:[0-9]{2}([.][0-9]*[1-9])?$"@);
}

proof fn lemma_open_trimmed_text()
    ensures
        seq!['^'] + regex_text(seconds_then(trimmed_fraction())) == "^[0-9]{4}-[0-9]{2}-[0-9]{2} [0-9]{2}:[0-9]{2}:[0-9]{2}([.][0-9]*[1-9])?"@,
{
    reveal_with_fuel(regex_text, 16);
    lemma_small_numbers();
    reveal_strlit("^[0-9]{4}-[0-9]{2}-[0-9]{2} [0-9]{2}:[0-9]{2}:[0-9]{2}([.][0-9]*[1-9])?");
    assert(seq!['^'] + regex_text(seconds_then(trimmed_fraction())) =~= "^[0-9]{4}-[0-9]{2}-[0-9]{2} [0-9]{2}:[0-9]{2}:[0-9]{2}([.][0-9]*[1-9])?"@);
}

proof fn lemma_offset_trimmed_text()
    ensures
        seq!['^'] + regex_text(seconds_then(in_turn(trimmed_fraction(), zero_offset(CharSet::Plus)))) + seq!['$'] == "^[0-9]{4}-[0-9]{2}-[0-9]{2} [0-9]{2}:[0-9]{2}:[0-9]{2}([.][0-9]*[1-9])?[+]00$"@,
{
    reveal_with_fuel(regex_text, 18);
    lemma_small_numbers();
    reveal_strlit("^[0-9]{4}-[0-9]{2}-[0-9]{2} [0-9]{2}:[0-9]{2}:[0-9]{2}([.][0-9]*[1-9])?[+]00$");
    assert(seq!['^'] + regex_text(seconds_then(in_turn(trimmed_fraction(), zero_offset(CharSet::Plus)))) + seq!['$'] =~= "^[0-9]{4}-[0-9]{2}-[0-9]{2} [0-9]{2}:[0-9]{2}:[0-9]{2}([.][0-9]*[1-9])?[+]00$"@);
}

proof fn lemma_open_offset_trimmed_text()
    ensures
        seq!['^'] + regex_text(seconds_then(in_turn(trimmed_fraction(), zero_offset(CharSet::Plus)))) == "^[0-9]{4}-[0-9]{2}-[0-9]{2} [0-9]{2}:[0-9]{2}:[0-9]{2}([.][0-9]*[1-9])?[+]00"@,
{
    reveal_with_fuel(regex_text, 18);
    lemma_small_numbers();
    reveal_strlit("^[0-9]{4}-[0-9]{2}-[0-9]{2} [0-9]{2}:[0-9]{2}:[0-9]{2}([.][0-9]*[1-9])?[+]00");
    assert(seq!['^'] + regex_text(seconds_then(in_turn(trimmed_fraction(), zero_offset(CharSet::Plus)))) =~= "^[0-9]{4}-[0-9]{2}-[0-9]{2} [0-9]{2}:[0-9]{2}:[0-9]{2}([.][0-9]*[1-9])?[+]00"@);
}

// ---------------------------------------------------------------------------
// How dates, timestamps and booleans compare
// ---------------------------------------------------------------------------

proof fn lemma_day_shape(text: Seq<char>)
    ensures
        crate::scan::has_shape(text, "NNNN-NN-NN"@) <==> is_day(text),
{
    reveal_strlit("NNNN-NN-NN");
    let shape = "NNNN-NN-NN"@;
    if crate::scan::has_shape(text, shape) {
        assert(is_digit(text[0]) && is_digit(text[1]) && is_digit(text[2]) && is_digit(text[3]));
        assert(text[4] == shape[4] && is_digit(text[5]) && is_digit(text[6]) && text[7]
            == shape[7]);
        assert(is_digit(text[8]) && is_digit(text[9]));
    }
    if is_day(text) {
        assert forall|i: int| 0 <= i < shape.len() implies if shape[i] == 'N' {
            is_digit(#[trigger] text[i])
        } else {
            text[i] == shape[i]
        } by {
            if i < 4 {
                assert(i == 0 || i == 1 || i == 2 || i == 3);
            } else {
                assert(i == 4 || i == 5 || i == 6 || i == 7 || i == 8 || i == 9);
            }
        }
    }
}

proof fn lemma_second_shape(text: Seq<char>)
    requires
        text.len() >= 19,
    ensures
        crate::scan::has_shape(text.take(19), "NNNN-NN-NN NN:NN:NN"@) <==> starts_with_second(text),
{
    reveal_strlit("NNNN-NN-NN NN:NN:NN");
    let shape = "NNNN-NN-NN NN:NN:NN"@;
    let head = text.take(19);
    assert(forall|i: int| 0 <= i < 19 ==> #[trigger] head[i] == text[i]);
    if crate::scan::has_shape(head, shape) {
        assert(is_digit(head[0]) && is_digit(head[1]) && is_digit(head[2]) && is_digit(head[3]));
        assert(head[4] == shape[4] && is_digit(head[5]) && is_digit(head[6]));
        assert(head[7] == shape[7] && is_digit(head[8]) && is_digit(head[9]));
        assert(head[10] == shape[10] && is_digit(head[11]) && is_digit(head[12]));
        assert(head[13] == shape[13] && is_digit(head[14]) && is_digit(head[15]));
        assert(head[16] == shape[16] && is_digit(head[17]) && is_digit(head[18]));
    }
    if starts_with_second(text) {
        assert forall|i: int| 0 <= i < shape.len() implies if shape[i] == 'N' {
            is_digit(#[trigger] head[i])
        } else {
            head[i] == shape[i]
        } by {
            if i < 8 {
                assert(i == 0 || i == 1 || i == 2 || i == 3 || i == 4 || i == 5 || i == 6 || i == 7);
            } else if i < 14 {
                assert(i == 8 || i == 9 || i == 10 || i == 11 || i == 12 || i == 13);
            } else {
                assert(i == 14 || i == 15 || i == 16 || i == 17 || i == 18);
            }
        }
    }
}

proof fn lemma_digits_skip(text: Seq<char>, from: int)
    requires
        0 <= from <= text.len(),
    ensures
        crate::scan::is_digits(text.skip(from)) <==> from < text.len() && digits_from(text, from),
{
    let rest = text.skip(from);
    if crate::scan::is_digits(rest) {
        assert forall|i: int| from <= i < text.len() implies '0' <= #[trigger] text[i] <= '9' by {
            assert(is_digit(rest[i - from]));
            assert(rest[i - from] == text[i]);
        }
    }
    if from < text.len() && digits_from(text, from) {
        assert forall|i: int| 0 <= i < rest.len() implies is_digit(#[trigger] rest[i]) by {
            assert(rest[i] == text[i + from]);
        }
    }
}

/// A timestamp with as many digits of a second as there are.
pub open spec fn is_any_second(text: Seq<char>) -> bool {
    &&& starts_with_second(text)
    &&& text.len() == 19 || (text.len() >= 21 && text[19] == '.' && digits_from(text, 20))
}

proof fn lemma_duckdb_constants(text: Seq<char>)
    ensures
        crate::metadata_provider_duckdb::is_timestamp_constant(text) <==> is_any_second(text),
        crate::metadata_provider_duckdb::is_date_constant(text) <==> is_day(text),
{
    lemma_day_shape(text);
    if text.len() >= 19 {
        lemma_second_shape(text);
        if text.len() >= 20 {
            lemma_digits_skip(text, 20);
        }
    }
}

proof fn lemma_canonical_timestamp(text: Seq<char>)
    ensures
        crate::stats_encode::is_timestamp_text(text) <==> is_trimmed_second(text),
        crate::stats_encode::is_date_text(text) <==> is_day(text),
{
    lemma_day_shape(text);
    if text.len() >= 19 {
        lemma_second_shape(text);
        if text.len() >= 20 {
            let rest = text.skip(19);
            assert(rest.skip(1) =~= text.skip(20));
            lemma_digits_skip(text, 20);
            assert(rest.last() == text.last());
            assert(rest[0] == text[19]);
        }
    }
}

proof fn lemma_zero_suffix(text: Seq<char>)
    ensures
        "+00"@.is_suffix_of(text) <==> has_zero_offset(text),
{
    reveal_strlit("+00");
    let n = text.len();
    if has_zero_offset(text) {
        assert(text.subrange(n - 3, n as int) =~= "+00"@);
    }
    if "+00"@.is_suffix_of(text) {
        let end = text.subrange(n - 3, n as int);
        assert(end[0] == text[n - 3] && end[1] == text[n - 2] && end[2] == text[n - 1]);
    }
}

/// How many moments of a second a type of DuckDB for timestamps tells apart.
pub open spec fn duckdb_moments(name: Seq<char>) -> int {
    if name == "TIMESTAMP_S"@ {
        1
    } else if name == "TIMESTAMP_MS"@ {
        1_000
    } else if name == "TIMESTAMP"@ || name == "TIMESTAMPTZ"@ {
        1_000_000
    } else if name == "TIMESTAMP_NS"@ {
        1_000_000_000
    } else {
        0
    }
}

proof fn lemma_duckdb_moments()
    ensures
        duckdb_moments("TIMESTAMP_S"@) == 1,
        duckdb_moments("TIMESTAMP_MS"@) == 1_000,
        duckdb_moments("TIMESTAMP"@) == 1_000_000,
        duckdb_moments("TIMESTAMPTZ"@) == 1_000_000,
        duckdb_moments("TIMESTAMP_NS"@) == 1_000_000_000,
{
    reveal_strlit("TIMESTAMP_S");
    reveal_strlit("TIMESTAMP_MS");
    reveal_strlit("TIMESTAMP");
    reveal_strlit("TIMESTAMPTZ");
    reveal_strlit("TIMESTAMP_NS");
    assert("TIMESTAMP_MS"@[10] == 'M' && "TIMESTAMP_NS"@[10] == 'N' && "TIMESTAMP_S"@[10] == 'S'
        && "TIMESTAMPTZ"@[10] == 'Z');
    assert("TIMESTAMP"@.len() == 9 && "TIMESTAMP_S"@.len() == 11 && "TIMESTAMP_MS"@.len() == 12
        && "TIMESTAMPTZ"@.len() == 11 && "TIMESTAMP_NS"@.len() == 12);
}

/// DuckDB compares dates as dates: a date is compared with dates that are written as such
/// and with nothing else, and a constant that is no date is not compared at all.
pub proof fn lemma_duckdb_date_bounds(name: Seq<char>, constant: Seq<char>, data_type: DataType)
    requires
        data_type is Date32 || data_type is Date64,
    ensures
        duckdb_cast_text(name, constant, data_type) is Some <==> is_day(constant),
        duckdb_cast_text(name, constant, data_type) matches Some(sql) ==> exists|regex: Regex|
            #[trigger] duckdb_spelling(regex, "DATE"@, name) == sql && (forall|text: Seq<char>|
                #[trigger] regex_matches(regex, text) <==> is_day(text)),
{
    lemma_duckdb_constants(constant);
    lemma_day_text();
    let regex = date_then(digits_times(2));
    assert forall|text: Seq<char>| #[trigger] regex_matches(regex, text) <==> is_day(text) by {
        lemma_day(text);
    }
    if let Some(sql) = duckdb_cast_text(name, constant, data_type) {
        assert(duckdb_spelling(regex, "DATE"@, name) == sql);
    }
}

/// DuckDB compares timestamps in a type that tells apart as many moments as the column
/// does. A statistic counts where it is written as a timestamp, with up to nine digits of
/// a second, and for a column with a time zone in UTC. Nanoseconds with a time zone are
/// not compared, nor is a constant that is no timestamp.
pub proof fn lemma_duckdb_timestamp_bounds(
    name: Seq<char>,
    constant: Seq<char>,
    unit: TimeUnit,
    zone: Option<String>,
)
    ensures
        duckdb_cast_text(name, constant, DataType::Timestamp(unit, zone)) is Some <==> (match zone {
            None => is_any_second(constant),
            Some(_) => unit !is Nanosecond && has_zero_offset(constant) && is_any_second(
                constant.take(constant.len() - 3),
            ),
        }),
        duckdb_cast_text(name, constant, DataType::Timestamp(unit, zone)) matches Some(sql)
            ==> exists|regex: Regex, target: Seq<char>|
            #![trigger duckdb_spelling(regex, target, name)]
            {
                &&& duckdb_spelling(regex, target, name) == sql
                &&& zone is None ==> duckdb_moments(target) == crate::duckdb_values::per_second(
                    unit,
                ) && (forall|text: Seq<char>| #[trigger]
                    regex_matches(regex, text) <==> is_second(text))
                &&& zone is Some ==> target == "TIMESTAMPTZ"@ && duckdb_moments(target)
                    >= crate::duckdb_values::per_second(unit) && (forall|text: Seq<char>| #[trigger]
                    regex_matches(regex, text) <==> has_zero_offset(text) && is_second(
                        text.take(text.len() - 3),
                    ))
            },
{
    let data_type = DataType::Timestamp(unit, zone);
    let target = crate::metadata_provider_duckdb::cast_type(data_type)->0;
    lemma_duckdb_constants(constant);
    lemma_duckdb_constants(constant.take(constant.len() - 3));
    lemma_zero_suffix(constant);
    lemma_duckdb_moments();
    lemma_second_text();
    lemma_offset_second_text();
    let part = fraction(CharSet::Escaped('.'), 9);
    let plus = CharSet::Escaped('+');
    if zone is None {
        let regex = seconds_then(part);
        assert forall|text: Seq<char>| #[trigger] regex_matches(regex, text) <==> is_second(text) by {
            lemma_second(text);
        }
        if let Some(sql) = duckdb_cast_text(name, constant, data_type) {
            assert(duckdb_spelling(regex, target, name) == sql);
        }
    } else {
        let regex = seconds_then(in_turn(part, zero_offset(plus)));
        assert forall|text: Seq<char>| #[trigger]
            regex_matches(regex, text) <==> has_zero_offset(text) && is_second(
                text.take(text.len() - 3),
            ) by {
            lemma_offset_second(part, plus, text);
            lemma_second(text.take(text.len() - 3));
        }
        if let Some(sql) = duckdb_cast_text(name, constant, data_type) {
            assert(duckdb_spelling(regex, target, name) == sql);
        }
    }
}

/// Booleans are compared as booleans, where they are written `true` or `false`.
pub proof fn lemma_duckdb_boolean_bounds(name: Seq<char>, constant: Seq<char>)
    ensures
        duckdb_cast_text(name, constant, DataType::Boolean) matches Some(sql) && exists|
            regex: Regex,
        | #[trigger]
            duckdb_spelling(regex, "BOOLEAN"@, name) == sql && (forall|text: Seq<char>| #[trigger]
                regex_matches(regex, text) <==> text == "true"@ || text == "false"@),
{
    lemma_truth_text();
    let regex = truth_regex();
    assert forall|text: Seq<char>| #[trigger] regex_matches(regex, text) <==> text == "true"@ || text
        == "false"@ by {
        lemma_truth(text);
    }
    assert(duckdb_spelling(regex, "BOOLEAN"@, name) == duckdb_cast_text(
        name,
        constant,
        DataType::Boolean,
    )->0);
}

/// DuckDB does not compare what it has no type for, nor what is not ordered as it is
/// written.
pub proof fn lemma_duckdb_declines(name: Seq<char>, constant: Seq<char>, data_type: DataType)
    ensures
        data_type is Float16 || data_type is Utf8 || data_type is LargeUtf8 || data_type is Utf8View
            || data_type is Binary || data_type is LargeBinary || data_type is BinaryView
            || data_type is FixedSizeBinary || data_type is Interval || data_type is Time64
            || data_type is List || data_type is LargeList || data_type is FixedSizeList
            || data_type is Struct || data_type is MapEntries || data_type is Other
            ==> duckdb_cast_text(name, constant, data_type) is None,
        data_type is Float32 || data_type is Float64 ==> duckdb_cast_text(name, constant, data_type)
            is Some,
        data_type matches DataType::Decimal128(precision, scale) ==> (duckdb_cast_text(
            name,
            constant,
            data_type,
        ) is Some <==> precision <= 38 && 0 <= scale <= precision),
{
}

proof fn lemma_postgres_text_spelling(regex: Regex, name: Seq<char>)
    ensures
        postgres_text_spelling(regex, name) == "CASE WHEN "@
            + crate::metadata_provider_postgres::binary_text(name) + " ~ '"@ + (seq!['^']
            + regex_text(regex) + seq!['$']) + "' THEN "@
            + crate::metadata_provider_postgres::binary_text(name) + " END"@,
{
    reveal_strlit("CASE WHEN (");
    reveal_strlit("CASE WHEN ");
    reveal_strlit("(");
    reveal_strlit(" COLLATE \"C\") ~ '");
    reveal_strlit(" COLLATE \"C\")");
    reveal_strlit(" ~ '");
    reveal_strlit("' THEN (");
    reveal_strlit("' THEN ");
    reveal_strlit(" COLLATE \"C\") END");
    reveal_strlit(" END");
    let pattern = seq!['^'] + regex_text(regex) + seq!['$'];
    assert("CASE WHEN "@ + "("@ =~= "CASE WHEN ("@);
    assert(" COLLATE \"C\")"@ + " ~ '"@ =~= " COLLATE \"C\") ~ '"@);
    assert("' THEN "@ + "("@ =~= "' THEN ("@);
    assert(" COLLATE \"C\")"@ + " END"@ =~= " COLLATE \"C\") END"@);
    lemma_bracketed_sum(
        "CASE WHEN "@,
        "("@,
        name,
        " COLLATE \"C\")"@,
        " ~ '"@,
        pattern,
        "' THEN "@,
        " END"@,
    );
}

/// Sums of text may be bracketed in any way.
proof fn lemma_bracketed_sum(
    a: Seq<char>,
    b: Seq<char>,
    name: Seq<char>,
    c: Seq<char>,
    d: Seq<char>,
    pattern: Seq<char>,
    e: Seq<char>,
    f: Seq<char>,
)
    ensures
        (a + b) + name + (c + d) + pattern + (e + b) + name + (c + f) == a + (b + name + c) + d
            + pattern + e + (b + name + c) + f,
{
    assert((a + b) + name + (c + d) + pattern + (e + b) + name + (c + f) =~= a + (b + name + c) + d
        + pattern + e + (b + name + c) + f);
}

/// PostgreSQL compares dates and timestamps as the text that they are, which is in their
/// order: those that are written in full, with no zero at the end of a fraction, and
/// nothing else. A constant that is not so written is not compared.
pub proof fn lemma_postgres_temporal_bounds(
    name: Seq<char>,
    constant: Seq<char>,
    data_type: DataType,
    validates: bool,
)
    requires
        data_type is Date32 || data_type is Date64 || data_type is Timestamp,
    ensures
        postgres_cast_text(name, constant, data_type, validates) is Some <==> is_written_as(
            data_type,
            constant,
        ),
        postgres_cast_text(name, constant, data_type, validates) matches Some(sql) ==> exists|
            regex: Regex,
        | #[trigger]
            postgres_text_spelling(regex, name) == sql && (forall|text: Seq<char>| #[trigger]
                regex_matches(regex, text) <==> is_written_as(data_type, text)),
{
    lemma_canonical_timestamp(constant);
    lemma_canonical_timestamp(constant.take(constant.len() - 3));
    lemma_zero_suffix(constant);
    lemma_day_text();
    lemma_trimmed_text();
    lemma_offset_trimmed_text();
    let regex = temporal_regex(data_type);
    lemma_temporal_regex(data_type);
    lemma_postgres_text_spelling(regex, name);
    if let Some(sql) = postgres_cast_text(name, constant, data_type, validates) {
        assert(postgres_text_spelling(regex, name) == sql);
    }
}

/// Whether a text is a value of a temporal type as it is written in full.
pub open spec fn is_written_as(data_type: DataType, text: Seq<char>) -> bool {
    match data_type {
        DataType::Timestamp(_, None) => is_trimmed_second(text),
        DataType::Timestamp(_, Some(_)) => has_zero_offset(text) && is_trimmed_second(
            text.take(text.len() - 3),
        ),
        _ => is_day(text),
    }
}

spec fn temporal_regex(data_type: DataType) -> Regex {
    match data_type {
        DataType::Timestamp(_, None) => seconds_then(trimmed_fraction()),
        DataType::Timestamp(_, Some(_)) => seconds_then(
            in_turn(trimmed_fraction(), zero_offset(CharSet::Plus)),
        ),
        _ => date_then(digits_times(2)),
    }
}

proof fn lemma_temporal_regex(data_type: DataType)
    ensures
        forall|text: Seq<char>| #[trigger]
            regex_matches(temporal_regex(data_type), text) <==> is_written_as(data_type, text),
{
    assert forall|text: Seq<char>| #[trigger]
        regex_matches(temporal_regex(data_type), text) <==> is_written_as(data_type, text) by {
        lemma_day(text);
        lemma_second(text);
        lemma_second(text.take(text.len() - 3));
        lemma_offset_second(trimmed_fraction(), CharSet::Plus, text);
    }
}

/// Booleans are compared as booleans, where they are written `true` or `false`.
pub proof fn lemma_postgres_boolean_bounds(name: Seq<char>, constant: Seq<char>, validates: bool)
    ensures
        postgres_cast_text(name, constant, DataType::Boolean, validates) matches Some(sql)
            && exists|regex: Regex| #[trigger]
            postgres_spelling(regex, "boolean"@, name, validates) == sql && (forall|
                text: Seq<char>,
            | #[trigger]
                regex_matches(regex, text) <==> text == "true"@ || text == "false"@),
{
    lemma_truth_text();
    let regex = truth_regex();
    assert forall|text: Seq<char>| #[trigger] regex_matches(regex, text) <==> text == "true"@ || text
        == "false"@ by {
        lemma_truth(text);
    }
    lemma_postgres_spelling(regex, "boolean"@, name, validates);
    assert(postgres_spelling(regex, "boolean"@, name, validates) == postgres_cast_text(
        name,
        constant,
        DataType::Boolean,
        validates,
    )->0);
}

/// PostgreSQL does not compare other types, and compares numbers of every kind.
pub proof fn lemma_postgres_declines(
    name: Seq<char>,
    constant: Seq<char>,
    data_type: DataType,
    validates: bool,
)
    ensures
        data_type is Utf8 || data_type is LargeUtf8 || data_type is Utf8View || data_type is Binary
            || data_type is LargeBinary || data_type is BinaryView || data_type is FixedSizeBinary
            || data_type is Interval || data_type is Time64 || data_type is List
            || data_type is LargeList || data_type is FixedSizeList || data_type is Struct
            || data_type is MapEntries || data_type is Other ==> postgres_cast_text(
            name,
            constant,
            data_type,
            validates,
        ) is None,
        data_type is Float16 || data_type is Float32 || data_type is Float64
            || data_type is Decimal128 ==> postgres_cast_text(name, constant, data_type, validates)
            is Some,
{
    reveal_strlit("boolean");
    reveal_strlit("numeric");
    reveal_strlit("double precision");
    assert("boolean"@[0] == 'b' && "numeric"@[0] == 'n' && "double precision"@[0] == 'd');
}

proof fn lemma_mysql_text_spelling(regex: Regex, name: Seq<char>)
    ensures
        mysql_text_spelling(regex, name) == "CASE WHEN "@
            + crate::metadata_provider_mysql::whole_match_text(
            crate::metadata_provider_mysql::binary_text(name),
            seq!['^'] + regex_text(regex),
        ) + " THEN "@ + crate::metadata_provider_mysql::binary_text(name) + " END"@,
{
    reveal_strlit("') THEN ");
    reveal_strlit("')");
    reveal_strlit(" THEN ");
    let bytes = mysql_bytes(name);
    let pattern = seq!['^'] + regex_text(regex);
    assert("')"@ + " THEN "@ =~= "') THEN "@);
    assert("CASE WHEN "@ + bytes + " = REGEXP_SUBSTR("@ + bytes + ", '"@ + pattern + ("')"@
        + " THEN "@) + bytes + " END"@ =~= "CASE WHEN "@ + (bytes + " = REGEXP_SUBSTR("@ + bytes
        + ", '"@ + pattern + "')"@) + " THEN "@ + bytes + " END"@);
}

/// MySQL compares timestamps as the text that they are, and dates as dates: those that
/// are written in full and nothing else. A constant that is not so written is not
/// compared.
pub proof fn lemma_mysql_temporal_bounds(
    name: Seq<char>,
    constant: Seq<char>,
    data_type: DataType,
)
    requires
        data_type is Date32 || data_type is Timestamp,
    ensures
        mysql_cast_text(name, constant, data_type) is Some <==> is_written_as(data_type, constant),
        mysql_cast_text(name, constant, data_type) matches Some(sql) ==> exists|regex: Regex|
            {
                let text = #[trigger] mysql_text_spelling(regex, name);
                &&& data_type is Timestamp ==> sql == text
                &&& data_type is Date32 ==> sql == "CAST("@ + text + " AS DATE)"@
                &&& forall|text: Seq<char>| #[trigger]
                    regex_matches(regex, text) <==> is_written_as(data_type, text)
            },
{
    lemma_canonical_timestamp(constant);
    lemma_canonical_timestamp(constant.take(constant.len() - 3));
    lemma_zero_suffix(constant);
    lemma_open_day_text();
    lemma_open_trimmed_text();
    lemma_open_offset_trimmed_text();
    let regex = temporal_regex(data_type);
    lemma_temporal_regex(data_type);
    lemma_mysql_text_spelling(regex, name);
    if let Some(sql) = mysql_cast_text(name, constant, data_type) {
        let text = mysql_text_spelling(regex, name);
        if data_type is Date32 {
            reveal_strlit("CAST(CASE WHEN ");
            reveal_strlit("CAST(");
            reveal_strlit("CASE WHEN ");
            reveal_strlit(" END AS DATE)");
            reveal_strlit(" END");
            reveal_strlit(" AS DATE)");
            assert("CAST("@ + "CASE WHEN "@ =~= "CAST(CASE WHEN "@);
            assert(" END"@ + " AS DATE)"@ =~= " END AS DATE)"@);
            let bytes = crate::metadata_provider_mysql::binary_text(name);
            let test = crate::metadata_provider_mysql::whole_match_text(
                bytes,
                seq!['^'] + regex_text(regex),
            );
            assert("CAST("@ + ("CASE WHEN "@ + test + " THEN "@ + bytes + " END"@) + " AS DATE)"@
                =~= ("CAST("@ + "CASE WHEN "@) + test + " THEN "@ + bytes + (" END"@
                + " AS DATE)"@));
            assert(sql == "CAST("@ + text + " AS DATE)"@);
        } else {
            assert(sql == text);
        }
    }
}

/// Booleans are compared as the text that they are, of which `false` comes first.
pub proof fn lemma_mysql_boolean_bounds(name: Seq<char>, constant: Seq<char>)
    ensures
        mysql_cast_text(name, constant, DataType::Boolean) == Some(
            "CASE WHEN "@ + mysql_bytes(name) + " IN ('true', 'false') THEN "@ + mysql_bytes(name)
                + " END"@,
        ),
        crate::order::text_order("false"@, "true"@) < 0,
{
    reveal_strlit("false");
    reveal_strlit("true");
    assert("false"@[0] == 'f' && "true"@[0] == 't');
}

/// MySQL does not compare other types. Of fixed-point types it compares those whose
/// fraction it can hold.
pub proof fn lemma_mysql_declines(name: Seq<char>, constant: Seq<char>, data_type: DataType)
    ensures
        data_type is Float16 || data_type is Date64 || data_type is Utf8 || data_type is LargeUtf8
            || data_type is Utf8View || data_type is Binary || data_type is LargeBinary
            || data_type is BinaryView || data_type is FixedSizeBinary || data_type is Interval
            || data_type is Time64 || data_type is List || data_type is LargeList
            || data_type is FixedSizeList || data_type is Struct || data_type is MapEntries
            || data_type is Other ==> mysql_cast_text(name, constant, data_type) is None,
        data_type is Float32 || data_type is Float64 ==> mysql_cast_text(name, constant, data_type)
            is Some,
        data_type matches DataType::Decimal128(precision, scale) ==> (mysql_cast_text(
            name,
            constant,
            data_type,
        ) is Some <==> 0 <= scale <= 30),
{
}

// ---------------------------------------------------------------------------
// How fixed-point numbers compare
// ---------------------------------------------------------------------------

/// Whether a text is `low` to `high` digits.
pub open spec fn is_digits_between(text: Seq<char>, low: nat, high: nat) -> bool {
    low <= text.len() <= high && digits_from(text, 0)
}

/// What stands behind a leading minus.
pub open spec fn without_minus(text: Seq<char>) -> Seq<char> {
    if text.len() > 0 && text[0] == '-' {
        text.skip(1)
    } else {
        text
    }
}

/// Whether a text is a number with up to `whole` digits in front of the point, and either
/// no point or up to `behind` digits behind it.
pub open spec fn is_fixed_point(text: Seq<char>, whole: nat, behind: nat) -> bool {
    let digits = without_minus(text);
    ||| is_digits_between(digits, 1, whole)
    ||| exists|p: int|
        0 <= p < digits.len() && #[trigger] digits[p] == '.' && is_digits_between(
            digits.take(p),
            1,
            whole,
        ) && is_digits_between(digits.skip(p + 1), 1, behind)
}

proof fn lemma_digit_run(low: nat, high: nat, text: Seq<char>)
    ensures
        regex_matches(Regex::Chars(CharSet::Digit, Times::Between(low, high)), text)
            <==> is_digits_between(text, low, high),
{
}

proof fn lemma_signed_run(most: nat, text: Seq<char>)
    ensures
        regex_matches(signed_digits(most), text) <==> is_digits_between(
            without_minus(text),
            1,
            most,
        ),
{
    let minus = Regex::Chars(CharSet::Plain('-'), Times::Optional);
    let run = Regex::Chars(CharSet::Digit, Times::Between(1, most));
    reveal_with_fuel(regex_matches, 2);
    if regex_matches(signed_digits(most), text) {
        let k = choose|k: int| #[trigger]
            is_cut(k, text.len()) && regex_matches(minus, text.take(k)) && regex_matches(
                run,
                text.skip(k),
            );
        lemma_digit_run(1, most, text.skip(k));
        if k == 0 {
            assert(text.skip(0) =~= text);
            assert(text[0] != '-') by {
                assert('0' <= text[0] <= '9');
            }
        } else {
            assert(k == 1);
            assert(text.take(1)[0] == text[0]);
        }
    }
    if is_digits_between(without_minus(text), 1, most) {
        if text.len() > 0 && text[0] == '-' {
            assert(is_cut(1, text.len()));
            assert(text.take(1) =~= seq!['-']);
            lemma_digit_run(1, most, text.skip(1));
            assert(regex_matches(minus, text.take(1)));
        } else {
            assert(is_cut(0, text.len()));
            assert(text.take(0) =~= Seq::empty());
            assert(text.skip(0) =~= text);
            lemma_digit_run(1, most, text);
            assert(regex_matches(minus, text.take(0)));
        }
    }
}

proof fn lemma_fraction_run(dot: CharSet, behind: nat, text: Seq<char>)
    requires
        dot == CharSet::Dot || dot == CharSet::Escaped('.'),
    ensures
        regex_matches(fraction(dot, behind), text) <==> text.len() == 0 || (text[0] == '.'
            && is_digits_between(text.skip(1), 1, behind)),
{
    reveal_with_fuel(regex_matches, 2);
    let run = Regex::Chars(CharSet::Digit, Times::Between(1, behind));
    lemma_fixed(dot, Times::Once, run, text);
    if text.len() > 0 {
        lemma_digit_run(1, behind, text.skip(1));
    }
}

proof fn lemma_fixed_point(dot: CharSet, whole: nat, behind: nat, text: Seq<char>)
    requires
        dot == CharSet::Dot || dot == CharSet::Escaped('.'),
    ensures
        regex_matches(decimal_digits(dot, whole, behind), text) <==> is_fixed_point(
            text,
            whole,
            behind,
        ),
{
    let digits = without_minus(text);
    let cut: int = text.len() - digits.len();
    let front = signed_digits(whole);
    let back = fraction(dot, behind);
    if regex_matches(decimal_digits(dot, whole, behind), text) {
        let k = choose|k: int| #[trigger]
            is_cut(k, text.len()) && regex_matches(front, text.take(k)) && regex_matches(
                back,
                text.skip(k),
            );
        lemma_signed_run(whole, text.take(k));
        lemma_fraction_run(dot, behind, text.skip(k));
        let run = without_minus(text.take(k));
        assert(k > 0);
        assert(text.take(k)[0] == text[0]);
        assert(run =~= digits.take(k - cut));
        if k == text.len() {
            assert(run =~= digits);
        } else {
            assert(text.skip(k)[0] == text[k]);
            assert(digits[k - cut] == '.');
            assert(text.skip(k).skip(1) =~= digits.skip(k - cut + 1));
        }
    }
    if is_fixed_point(text, whole, behind) {
        if is_digits_between(digits, 1, whole) {
            lemma_signed_run(whole, text);
            assert(text.take(text.len() as int) =~= text);
            assert(text.skip(text.len() as int) =~= Seq::empty());
            lemma_fraction_run(dot, behind, text.skip(text.len() as int));
            assert(is_cut(text.len() as int, text.len()));
        } else {
            let p = choose|p: int|
                0 <= p < digits.len() && #[trigger] digits[p] == '.' && is_digits_between(
                    digits.take(p),
                    1,
                    whole,
                ) && is_digits_between(digits.skip(p + 1), 1, behind);
            let k = p + cut;
            assert(text.take(k)[0] == text[0]);
            assert(without_minus(text.take(k)) =~= digits.take(p)) by {
                assert(cut == 0 || cut == 1);
            }
            lemma_signed_run(whole, text.take(k));
            assert(text.skip(k)[0] == digits[p]);
            assert(text.skip(k).skip(1) =~= digits.skip(p + 1));
            lemma_fraction_run(dot, behind, text.skip(k));
            assert(is_cut(k, text.len()));
        }
    }
}

proof fn lemma_short_decimal_text()
    ensures
        seq!['^'] + regex_text(decimal_digits(CharSet::Escaped('.'), 38, 38)) + seq!['$']
            == "^-?[0-9]{1,38}(\\.[0-9]{1,38})?$"@,
{
    reveal_with_fuel(regex_text, 5);
    lemma_small_numbers();
    reveal_strlit("^-?[0-9]{1,38}(\\.[0-9]{1,38})?$");
    assert(seq!['^'] + regex_text(decimal_digits(CharSet::Escaped('.'), 38, 38)) + seq!['$']
        =~= "^-?[0-9]{1,38}(\\.[0-9]{1,38})?$"@);
}

/// DuckDB compares a fixed-point number in the type of the column, digits and scale
/// alike, where it is written as one.
pub proof fn lemma_duckdb_decimal_bounds(
    name: Seq<char>,
    constant: Seq<char>,
    precision: u8,
    scale: i8,
)
    requires
        precision <= 38,
        0 <= scale <= precision,
    ensures
        duckdb_cast_text(name, constant, DataType::Decimal128(precision, scale)) matches Some(sql)
            && exists|regex: Regex| #[trigger]
            duckdb_spelling(
                regex,
                "DECIMAL("@ + nat_text(precision as nat) + ", "@ + nat_text(scale as nat) + ")"@,
                name,
            ) == sql && (forall|text: Seq<char>| #[trigger]
                regex_matches(regex, text) <==> is_fixed_point(text, 38, 38)),
{
    lemma_short_decimal_text();
    let regex = decimal_digits(CharSet::Escaped('.'), 38, 38);
    assert forall|text: Seq<char>| #[trigger] regex_matches(regex, text) <==> is_fixed_point(
        text,
        38,
        38,
    ) by {
        lemma_fixed_point(CharSet::Escaped('.'), 38, 38, text);
    }
    let target = "DECIMAL("@ + nat_text(precision as nat) + ", "@ + nat_text(scale as nat) + ")"@;
    assert(duckdb_spelling(regex, target, name) == duckdb_cast_text(
        name,
        constant,
        DataType::Decimal128(precision, scale),
    )->0);
}

/// PostgreSQL compares numbers that are written in digits, with or without a point, in
/// the type that holds them all.
pub proof fn lemma_postgres_decimal_bounds(
    name: Seq<char>,
    constant: Seq<char>,
    precision: u8,
    scale: i8,
    validates: bool,
)
    ensures
        postgres_cast_text(
            name,
            constant,
            DataType::Decimal128(precision, scale),
            validates,
        ) matches Some(sql) && exists|regex: Regex| #[trigger]
            postgres_spelling(regex, "numeric"@, name, validates) == sql && (forall|
                text: Seq<char>,
            | #[trigger]
                regex_matches(regex, text) <==> is_fixed_point(text, 255, 255)),
{
    lemma_numeric_text();
    let regex = decimal_digits(CharSet::Escaped('.'), 255, 255);
    assert forall|text: Seq<char>| #[trigger] regex_matches(regex, text) <==> is_fixed_point(
        text,
        255,
        255,
    ) by {
        lemma_fixed_point(CharSet::Escaped('.'), 255, 255, text);
    }
    reveal_strlit("boolean");
    reveal_strlit("numeric");
    assert("boolean"@[0] == 'b' && "numeric"@[0] == 'n');
    lemma_postgres_spelling(regex, "numeric"@, name, validates);
    assert(postgres_spelling(regex, "numeric"@, name, validates) == postgres_cast_text(
        name,
        constant,
        DataType::Decimal128(precision, scale),
        validates,
    )->0);
}

/// MySQL compares a fixed-point number with the scale of the column, where it is written
/// with no more digits than the type has on either side of the point, and at least one in
/// front.
pub proof fn lemma_mysql_decimal_bounds(
    name: Seq<char>,
    constant: Seq<char>,
    precision: u8,
    scale: i8,
)
    requires
        0 <= scale <= 30,
    ensures
        mysql_cast_text(name, constant, DataType::Decimal128(precision, scale)) matches Some(sql)
            && exists|regex: Regex| #[trigger]
            mysql_spelling(regex, "DECIMAL(65, "@ + nat_text(scale as nat) + ")"@, name) == sql && (
            forall|text: Seq<char>| #[trigger]
                regex_matches(regex, text) <==> (if scale == 0 {
                    is_digits_between(without_minus(text), 1, whole_digits(precision, scale))
                } else {
                    is_fixed_point(text, whole_digits(precision, scale), scale as nat)
                })),
{
    let whole = whole_digits(precision, scale);
    let regex = if scale == 0 {
        signed_digits(whole)
    } else {
        decimal_digits(CharSet::Dot, whole, scale as nat)
    };
    assert forall|text: Seq<char>| #[trigger]
        regex_matches(regex, text) <==> (if scale == 0 {
            is_digits_between(without_minus(text), 1, whole)
        } else {
            is_fixed_point(text, whole, scale as nat)
        }) by {
        lemma_signed_run(whole, text);
        lemma_fixed_point(CharSet::Dot, whole, scale as nat, text);
    }
    lemma_mysql_decimal_text(whole, scale as nat);
    let target = "DECIMAL(65, "@ + nat_text(scale as nat) + ")"@;
    assert(seq!['^'] + regex_text(regex) + seq!['$']
        == crate::metadata_provider_mysql::decimal_pattern(precision as int, scale as int));
    assert(mysql_spelling(regex, target, name) == mysql_cast_text(
        name,
        constant,
        DataType::Decimal128(precision, scale),
    )->0);
}

/// How many digits a fixed-point type has in front of the point, one at least.
pub open spec fn whole_digits(precision: u8, scale: i8) -> nat {
    if precision > scale {
        (precision - scale) as nat
    } else {
        1
    }
}

proof fn lemma_mysql_decimal_text(whole: nat, behind: nat)
    ensures
        seq!['^'] + regex_text(signed_digits(whole)) + seq!['$'] == "^-?[0-9]{1,"@ + nat_text(whole)
            + "}$"@,
        seq!['^'] + regex_text(decimal_digits(CharSet::Dot, whole, behind)) + seq!['$']
            == "^-?[0-9]{1,"@ + nat_text(whole) + "}([.][0-9]{1,"@ + nat_text(behind) + "})?$"@,
{
    reveal_with_fuel(regex_text, 5);
    lemma_small_numbers();
    reveal_strlit("^-?[0-9]{1,");
    reveal_strlit("}$");
    reveal_strlit("}([.][0-9]{1,");
    reveal_strlit("})?$");
    let (a, b) = (nat_text(whole), nat_text(behind));
    assert(seq!['^'] + regex_text(signed_digits(whole)) + seq!['$'] =~= "^-?[0-9]{1,"@ + a + "}$"@);
    assert(seq!['^'] + regex_text(decimal_digits(CharSet::Dot, whole, behind)) + seq!['$']
        =~= "^-?[0-9]{1,"@ + a + "}([.][0-9]{1,"@ + b + "})?$"@);
}

// ---------------------------------------------------------------------------
// How floats compare
// ---------------------------------------------------------------------------

/// Whether a regular expression has a place for a character.
pub open spec fn admits(regex: Regex, c: char) -> bool
    decreases regex,
{
    match regex {
        Regex::Chars(set, _) => in_set(set, c),
        Regex::Then(a, b) => admits(*a, c) || admits(*b, c),
        Regex::Either(a, b) => admits(*a, c) || admits(*b, c),
        Regex::Group(a) => admits(*a, c),
        Regex::OptionalGroup(a) => admits(*a, c),
    }
}

proof fn lemma_admits(regex: Regex, text: Seq<char>, i: int)
    requires
        regex_matches(regex, text),
        0 <= i < text.len(),
    ensures
        admits(regex, text[i]),
    decreases regex,
{
    match regex {
        Regex::Chars(set, _) => {},
        Regex::Then(a, b) => {
            let k = choose|k: int| #[trigger]
                is_cut(k, text.len()) && regex_matches(*a, text.take(k)) && regex_matches(
                    *b,
                    text.skip(k),
                );
            if i < k {
                lemma_admits(*a, text.take(k), i);
            } else {
                lemma_admits(*b, text.skip(k), i - k);
            }
        },
        Regex::Either(a, b) => {
            if regex_matches(*a, text) {
                lemma_admits(*a, text, i);
            } else {
                lemma_admits(*b, text, i);
            }
        },
        Regex::Group(a) => {
            lemma_admits(*a, text, i);
        },
        Regex::OptionalGroup(a) => {
            lemma_admits(*a, text, i);
        },
    }
}

proof fn lemma_in_turn(a: Regex, b: Regex, s: Seq<char>, t: Seq<char>)
    requires
        regex_matches(a, s),
        regex_matches(b, t),
    ensures
        regex_matches(in_turn(a, b), s + t),
{
    let text = s + t;
    assert(text.take(s.len() as int) =~= s);
    assert(text.skip(s.len() as int) =~= t);
    assert(is_cut(s.len() as int, text.len()));
}

/// Whether a text is nothing or a minus.
pub open spec fn is_sign(text: Seq<char>) -> bool {
    text.len() == 0 || text == seq!['-']
}

/// Whether a text is nothing, or a point and up to `most` digits, at least one.
pub open spec fn is_fraction_part(text: Seq<char>, most: nat) -> bool {
    text.len() == 0 || (2 <= text.len() <= 1 + most && text[0] == '.' && digits_from(text, 1))
}

/// Whether a text is an exponent of up to `most` digits, with its sign.
pub open spec fn is_exponent(text: Seq<char>, most: nat) -> bool {
    3 <= text.len() <= 2 + most && text[0] == 'e' && (text[1] == '+' || text[1] == '-')
        && digits_from(text, 2)
}

/// Whether a text holds nothing but what a number is made of.
pub open spec fn is_numeric(text: Seq<char>) -> bool {
    forall|i: int|
        0 <= i < text.len() ==> '0' <= #[trigger] text[i] <= '9' || text[i] == '.' || text[i] == 'e'
            || text[i] == '+' || text[i] == '-'
}

spec fn minus_regex() -> Regex {
    Regex::Chars(CharSet::Plain('-'), Times::Optional)
}

spec fn inf_regex() -> Regex {
    in_turn(plain('i'), in_turn(plain('n'), plain('f')))
}

spec fn run_regex(times: Times) -> Regex {
    Regex::Chars(CharSet::Digit, times)
}

spec fn point_regex(dot: CharSet, times: Times) -> Regex {
    Regex::OptionalGroup(
        Box::new(in_turn(Regex::Chars(dot, Times::Once), run_regex(times))),
    )
}

spec fn exponent_regex(most: nat) -> Regex {
    in_turn(
        plain('e'),
        in_turn(Regex::Chars(CharSet::Sign, Times::Once), run_regex(Times::Between(1, most))),
    )
}

proof fn lemma_sign(text: Seq<char>)
    requires
        is_sign(text),
    ensures
        regex_matches(minus_regex(), text),
{
}

proof fn lemma_point(dot: CharSet, times: Times, text: Seq<char>, most: nat)
    requires
        dot == CharSet::Dot || dot == CharSet::Escaped('.'),
        is_fraction_part(text, most),
        times == Times::More || times == Times::Between(1, most),
    ensures
        regex_matches(point_regex(dot, times), text),
{
    reveal_with_fuel(regex_matches, 2);
    if text.len() > 0 {
        lemma_fixed(dot, Times::Once, run_regex(times), text);
        let rest = text.skip(1);
        assert forall|i: int| 0 <= i < rest.len() implies in_set(
            CharSet::Digit,
            #[trigger] rest[i],
        ) by {
            assert(rest[i] == text[i + 1]);
        }
    }
}

proof fn lemma_exponent(text: Seq<char>, most: nat)
    requires
        is_exponent(text, most),
    ensures
        regex_matches(exponent_regex(most), text),
{
    let run = run_regex(Times::Between(1, most));
    let sign = in_turn(Regex::Chars(CharSet::Sign, Times::Once), run);
    lemma_one_char('e', sign, text);
    lemma_fixed(CharSet::Sign, Times::Once, run, text.skip(1));
    let rest = text.skip(1).skip(1);
    assert(text.skip(1)[0] == text[1]);
    assert forall|i: int| 0 <= i < rest.len() implies in_set(CharSet::Digit, #[trigger] rest[i]) by {
        assert(rest[i] == text[i + 2]);
    }
}

proof fn lemma_inf(text: Seq<char>)
    ensures
        regex_matches(inf_regex(), text) <==> text == "inf"@,
{
    reveal_strlit("inf");
    reveal_with_fuel(regex_matches, 2);
    lemma_one_char('i', in_turn(plain('n'), plain('f')), text);
    lemma_one_char('n', plain('f'), text.skip(1));
    if regex_matches(inf_regex(), text) {
        let rest = text.skip(1).skip(1);
        assert(rest.len() == 1 && rest[0] == 'f');
        assert(text.skip(1)[0] == text[1] && rest[0] == text[2]);
        assert(text =~= "inf"@);
    }
    if text == "inf"@ {
        assert(text.skip(1).skip(1) =~= seq!['f']);
        assert(text.skip(1)[0] == 'n');
    }
}

/// The floats that DuckDB reads.
spec fn duckdb_float() -> Regex {
    in_turn(
        minus_regex(),
        Regex::Group(Box::new(Regex::Either(Box::new(inf_regex()), Box::new(duckdb_digits())))),
    )
}

spec fn duckdb_digits() -> Regex {
    in_turn(
        run_regex(Times::More),
        in_turn(
            point_regex(CharSet::Escaped('.'), Times::More),
            Regex::OptionalGroup(Box::new(exponent_regex(3))),
        ),
    )
}

/// The floats that PostgreSQL and MySQL read, with the point spelled as given.
spec fn short_digits(dot: CharSet) -> Regex {
    in_turn(run_regex(Times::Between(1, 255)), point_regex(dot, Times::Between(1, 255)))
}

spec fn scientific_digits(dot: CharSet) -> Regex {
    in_turn(
        run_regex(Times::Once),
        in_turn(point_regex(dot, Times::Between(1, 255)), exponent_regex(2)),
    )
}

spec fn postgres_float() -> Regex {
    in_turn(
        minus_regex(),
        Regex::Group(
            Box::new(
                Regex::Either(
                    Box::new(inf_regex()),
                    Box::new(
                        Regex::Either(
                            Box::new(short_digits(CharSet::Escaped('.'))),
                            Box::new(scientific_digits(CharSet::Escaped('.'))),
                        ),
                    ),
                ),
            ),
        ),
    )
}

spec fn mysql_float() -> Regex {
    in_turn(
        minus_regex(),
        Regex::Group(
            Box::new(
                Regex::Either(
                    Box::new(short_digits(CharSet::Dot)),
                    Box::new(scientific_digits(CharSet::Dot)),
                ),
            ),
        ),
    )
}

proof fn lemma_255()
    ensures
        nat_text(255) == seq!['2', '5', '5'],
        nat_text(1) == seq!['1'],
        nat_text(2) == seq!['2'],
        nat_text(3) == seq!['3'],
{
    reveal_with_fuel(nat_text, 4);
    assert(nat_text(255) =~= seq!['2', '5', '5']);
}

proof fn lemma_duckdb_float_text()
    ensures
        seq!['^'] + regex_text(duckdb_float()) + seq!['$'] == "^-?(inf|[0-9]+(\\.[0-9]+)?(e[-+][0-9]{1,3})?)$"@,
{
    reveal_with_fuel(regex_text, 14);
    lemma_255();
    reveal_strlit("^-?(inf|[0-9]+(\\.[0-9]+)?(e[-+][0-9]{1,3})?)$");
    assert(seq!['^'] + regex_text(duckdb_float()) + seq!['$'] =~= "^-?(inf|[0-9]+(\\.[0-9]+)?(e[-+][0-9]{1,3})?)$"@);
}

proof fn lemma_postgres_float_text()
    ensures
        seq!['^'] + regex_text(postgres_float()) + seq!['$'] == "^-?(inf|[0-9]{1,255}(\\.[0-9]{1,255})?|[0-9](\\.[0-9]{1,255})?e[-+][0-9]{1,2})$"@,
{
    reveal_with_fuel(regex_text, 14);
    lemma_255();
    reveal_strlit("^-?(inf|[0-9]{1,255}(\\.[0-9]{1,255})?|[0-9](\\.[0-9]{1,255})?e[-+][0-9]{1,2})$");
    assert(seq!['^'] + regex_text(postgres_float()) + seq!['$'] =~= "^-?(inf|[0-9]{1,255}(\\.[0-9]{1,255})?|[0-9](\\.[0-9]{1,255})?e[-+][0-9]{1,2})$"@);
}

proof fn lemma_mysql_float_text()
    ensures
        seq!['^'] + regex_text(mysql_float()) + seq!['$'] == "^-?([0-9]{1,255}([.][0-9]{1,255})?|[0-9]([.][0-9]{1,255})?e[-+][0-9]{1,2})$"@,
{
    reveal_with_fuel(regex_text, 14);
    lemma_255();
    reveal_strlit("^-?([0-9]{1,255}([.][0-9]{1,255})?|[0-9]([.][0-9]{1,255})?e[-+][0-9]{1,2})$");
    assert(seq!['^'] + regex_text(mysql_float()) + seq!['$'] =~= "^-?([0-9]{1,255}([.][0-9]{1,255})?|[0-9]([.][0-9]{1,255})?e[-+][0-9]{1,2})$"@);
}

proof fn lemma_numeric_part(regex: Regex, text: Seq<char>)
    requires
        regex_matches(regex, text),
        regex == duckdb_digits() || regex == short_digits(CharSet::Escaped('.')) || regex
            == scientific_digits(CharSet::Escaped('.')) || regex == short_digits(CharSet::Dot)
            || regex == scientific_digits(CharSet::Dot),
    ensures
        is_numeric(text),
{
    reveal_with_fuel(admits, 7);
    assert forall|i: int| 0 <= i < text.len() implies '0' <= #[trigger] text[i] <= '9' || text[i]
        == '.' || text[i] == 'e' || text[i] == '+' || text[i] == '-' by {
        lemma_admits(regex, text, i);
    }
}

/// What stands behind the optional minus of a match.
proof fn lemma_behind_minus(part: Regex, text: Seq<char>) -> (k: int)
    requires
        regex_matches(in_turn(minus_regex(), part), text),
    ensures
        0 <= k <= 1,
        k <= text.len(),
        k == 1 ==> text[0] == '-',
        regex_matches(part, text.skip(k)),
{
    reveal_with_fuel(regex_matches, 2);
    let k = choose|k: int| #[trigger]
        is_cut(k, text.len()) && regex_matches(minus_regex(), text.take(k)) && regex_matches(
            part,
            text.skip(k),
        );
    if k == 1 {
        assert(text.take(1)[0] == text[0]);
    }
    k
}

proof fn lemma_numeric_behind(text: Seq<char>, k: int)
    requires
        0 <= k <= 1,
        k <= text.len(),
        k == 1 ==> text[0] == '-',
        is_numeric(text.skip(k)),
    ensures
        is_numeric(text),
{
    assert forall|i: int| 0 <= i < text.len() implies '0' <= #[trigger] text[i] <= '9' || text[i]
        == '.' || text[i] == 'e' || text[i] == '+' || text[i] == '-' by {
        if i >= k {
            assert(text.skip(k)[i - k] == text[i]);
        }
    }
}

/// The type of DuckDB for floats of single or of double precision.
pub open spec fn duckdb_float_type(data_type: DataType) -> Seq<char> {
    if data_type is Float32 {
        "FLOAT"@
    } else {
        "DOUBLE"@
    }
}

/// DuckDB compares floats in the type of the column. Every number that is written in
/// digits counts, with or without a fraction and an exponent, and so does infinity; text
/// that is neither, `nan` among it, does not.
pub proof fn lemma_duckdb_float_bounds(name: Seq<char>, constant: Seq<char>, data_type: DataType)
    requires
        data_type is Float32 || data_type is Float64,
    ensures
        duckdb_cast_text(name, constant, data_type) matches Some(sql) && exists|regex: Regex|
            {
                &&& #[trigger] duckdb_spelling(regex, duckdb_float_type(data_type), name) == sql
                &&& forall|text: Seq<char>| #[trigger]
                    regex_matches(regex, text) ==> is_numeric(text) || text == "inf"@ || text
                        == seq!['-'] + "inf"@
                &&& forall|sign: Seq<char>, whole: Seq<char>, part: Seq<char>, exponent: Seq<char>|
                    is_sign(sign) && whole.len() > 0 && digits_from(whole, 0) && is_fraction_part(
                        part,
                        part.len(),
                    ) && (exponent.len() == 0 || is_exponent(exponent, 3)) ==> #[trigger] regex_matches(
                        regex,
                        sign + (whole + (part + exponent)),
                    )
                &&& regex_matches(regex, "inf"@)
                &&& regex_matches(regex, seq!['-'] + "inf"@)
            },
{
    lemma_duckdb_float_text();
    let regex = duckdb_float();
    let either = Regex::Either(Box::new(inf_regex()), Box::new(duckdb_digits()));
    let group = Regex::Group(Box::new(either));
    reveal_with_fuel(regex_matches, 3);
    assert forall|text: Seq<char>| #[trigger] regex_matches(regex, text) implies is_numeric(text)
        || text == "inf"@ || text == seq!['-'] + "inf"@ by {
        let k = lemma_behind_minus(group, text);
        let rest = text.skip(k);
        assert(regex_matches(either, rest));
        lemma_inf(rest);
        if regex_matches(inf_regex(), rest) {
            if k == 0 {
                assert(rest =~= text);
            } else {
                assert(text =~= seq!['-'] + rest);
            }
        } else {
            lemma_numeric_part(duckdb_digits(), rest);
            lemma_numeric_behind(text, k);
        }
    }
    assert forall|sign: Seq<char>, whole: Seq<char>, part: Seq<char>, exponent: Seq<char>|
        is_sign(sign) && whole.len() > 0 && digits_from(whole, 0) && is_fraction_part(
            part,
            part.len(),
        ) && (exponent.len() == 0 || is_exponent(exponent, 3)) implies #[trigger] regex_matches(
        regex,
        sign + (whole + (part + exponent)),
    ) by {
        let point = point_regex(CharSet::Escaped('.'), Times::More);
        let tail = Regex::OptionalGroup(Box::new(exponent_regex(3)));
        lemma_sign(sign);
        lemma_point(CharSet::Escaped('.'), Times::More, part, part.len());
        if exponent.len() > 0 {
            lemma_exponent(exponent, 3);
        }
        assert(regex_matches(tail, exponent));
        lemma_in_turn(point, tail, part, exponent);
        assert(regex_matches(run_regex(Times::More), whole));
        lemma_in_turn(run_regex(Times::More), in_turn(point, tail), whole, part + exponent);
        assert(regex_matches(either, whole + (part + exponent)));
        lemma_in_turn(minus_regex(), group, sign, whole + (part + exponent));
    }
    lemma_inf("inf"@);
    assert(regex_matches(either, "inf"@));
    lemma_sign(Seq::empty());
    lemma_sign(seq!['-']);
    lemma_in_turn(minus_regex(), group, Seq::empty(), "inf"@);
    lemma_in_turn(minus_regex(), group, seq!['-'], "inf"@);
    assert(Seq::<char>::empty() + "inf"@ =~= "inf"@);
    let target = duckdb_float_type(data_type);
    assert(duckdb_spelling(regex, target, name) == duckdb_cast_text(name, constant, data_type)->0);
}

/// Numbers in digits, plain or with one digit in front of the point and an exponent.
proof fn lemma_short_float(
    dot: CharSet,
    whole: Seq<char>,
    part: Seq<char>,
    exponent: Seq<char>,
)
    requires
        dot == CharSet::Dot || dot == CharSet::Escaped('.'),
        digits_from(whole, 0),
        is_fraction_part(part, 255),
    ensures
        1 <= whole.len() <= 255 ==> regex_matches(short_digits(dot), whole + part),
        whole.len() == 1 && is_exponent(exponent, 2) ==> regex_matches(
            scientific_digits(dot),
            whole + (part + exponent),
        ),
{
    let point = point_regex(dot, Times::Between(1, 255));
    lemma_point(dot, Times::Between(1, 255), part, 255);
    if 1 <= whole.len() <= 255 {
        assert(regex_matches(run_regex(Times::Between(1, 255)), whole));
        lemma_in_turn(run_regex(Times::Between(1, 255)), point, whole, part);
    }
    if whole.len() == 1 && is_exponent(exponent, 2) {
        lemma_exponent(exponent, 2);
        lemma_in_turn(point, exponent_regex(2), part, exponent);
        assert(regex_matches(run_regex(Times::Once), whole));
        lemma_in_turn(
            run_regex(Times::Once),
            in_turn(point, exponent_regex(2)),
            whole,
            part + exponent,
        );
    }
}

/// PostgreSQL compares floats in double precision. Numbers that are written in digits
/// count, plain or with an exponent, and so does infinity; text that is neither, `nan`
/// among it, does not.
pub proof fn lemma_postgres_float_bounds(
    name: Seq<char>,
    constant: Seq<char>,
    data_type: DataType,
    validates: bool,
)
    requires
        data_type is Float16 || data_type is Float32 || data_type is Float64,
    ensures
        postgres_cast_text(name, constant, data_type, validates) matches Some(sql) && exists|
            regex: Regex,
        |
            {
                &&& #[trigger] postgres_spelling(regex, "double precision"@, name, validates) == sql
                &&& forall|text: Seq<char>| #[trigger]
                    regex_matches(regex, text) ==> is_numeric(text) || text == "inf"@ || text
                        == seq!['-'] + "inf"@
                &&& forall|sign: Seq<char>, whole: Seq<char>, part: Seq<char>|
                    is_sign(sign) && 1 <= whole.len() <= 255 && digits_from(whole, 0)
                        && is_fraction_part(part, 255) ==> #[trigger] regex_matches(
                        regex,
                        sign + (whole + part),
                    )
                &&& forall|sign: Seq<char>, whole: Seq<char>, part: Seq<char>, exponent: Seq<char>|
                    is_sign(sign) && whole.len() == 1 && digits_from(whole, 0) && is_fraction_part(
                        part,
                        255,
                    ) && is_exponent(exponent, 2) ==> #[trigger] regex_matches(
                        regex,
                        sign + (whole + (part + exponent)),
                    )
                &&& regex_matches(regex, "inf"@)
                &&& regex_matches(regex, seq!['-'] + "inf"@)
            },
{
    lemma_postgres_float_text();
    let regex = postgres_float();
    let dot = CharSet::Escaped('.');
    let digits = Regex::Either(Box::new(short_digits(dot)), Box::new(scientific_digits(dot)));
    let either = Regex::Either(Box::new(inf_regex()), Box::new(digits));
    let group = Regex::Group(Box::new(either));
    reveal_with_fuel(regex_matches, 3);
    assert forall|text: Seq<char>| #[trigger] regex_matches(regex, text) implies is_numeric(text)
        || text == "inf"@ || text == seq!['-'] + "inf"@ by {
        let k = lemma_behind_minus(group, text);
        let rest = text.skip(k);
        assert(regex_matches(either, rest));
        lemma_inf(rest);
        if regex_matches(inf_regex(), rest) {
            if k == 0 {
                assert(rest =~= text);
            } else {
                assert(text =~= seq!['-'] + rest);
            }
        } else {
            assert(regex_matches(digits, rest));
            if regex_matches(short_digits(dot), rest) {
                lemma_numeric_part(short_digits(dot), rest);
            } else {
                lemma_numeric_part(scientific_digits(dot), rest);
            }
            lemma_numeric_behind(text, k);
        }
    }
    assert forall|sign: Seq<char>, whole: Seq<char>, part: Seq<char>|
        is_sign(sign) && 1 <= whole.len() <= 255 && digits_from(whole, 0) && is_fraction_part(
            part,
            255,
        ) implies #[trigger] regex_matches(regex, sign + (whole + part)) by {
        lemma_sign(sign);
        lemma_short_float(dot, whole, part, Seq::empty());
        assert(regex_matches(digits, whole + part));
        assert(regex_matches(either, whole + part));
        lemma_in_turn(minus_regex(), group, sign, whole + part);
    }
    assert forall|sign: Seq<char>, whole: Seq<char>, part: Seq<char>, exponent: Seq<char>|
        is_sign(sign) && whole.len() == 1 && digits_from(whole, 0) && is_fraction_part(part, 255)
            && is_exponent(exponent, 2) implies #[trigger] regex_matches(
        regex,
        sign + (whole + (part + exponent)),
    ) by {
        lemma_sign(sign);
        lemma_short_float(dot, whole, part, exponent);
        let text = whole + (part + exponent);
        assert(regex_matches(digits, text));
        assert(regex_matches(either, text));
        lemma_in_turn(minus_regex(), group, sign, text);
    }
    lemma_inf("inf"@);
    assert(regex_matches(either, "inf"@));
    lemma_sign(Seq::empty());
    lemma_sign(seq!['-']);
    lemma_in_turn(minus_regex(), group, Seq::empty(), "inf"@);
    lemma_in_turn(minus_regex(), group, seq!['-'], "inf"@);
    assert(Seq::<char>::empty() + "inf"@ =~= "inf"@);
    reveal_strlit("boolean");
    reveal_strlit("numeric");
    reveal_strlit("double precision");
    assert("boolean"@[0] == 'b' && "numeric"@[0] == 'n' && "double precision"@[0] == 'd');
    lemma_postgres_spelling(regex, "double precision"@, name, validates);
    assert(postgres_spelling(regex, "double precision"@, name, validates) == postgres_cast_text(
        name,
        constant,
        data_type,
        validates,
    )->0);
}

/// MySQL compares floats as doubles. Numbers that are written in digits count, plain or
/// with an exponent, and nothing else: it has no infinity.
pub proof fn lemma_mysql_float_bounds(name: Seq<char>, constant: Seq<char>, data_type: DataType)
    requires
        data_type is Float32 || data_type is Float64,
    ensures
        mysql_cast_text(name, constant, data_type) matches Some(sql) && exists|regex: Regex|
            {
                &&& #[trigger] mysql_spelling(regex, "DOUBLE"@, name) == sql
                &&& forall|text: Seq<char>| #[trigger]
                    regex_matches(regex, text) ==> is_numeric(text)
                &&& forall|sign: Seq<char>, whole: Seq<char>, part: Seq<char>|
                    is_sign(sign) && 1 <= whole.len() <= 255 && digits_from(whole, 0)
                        && is_fraction_part(part, 255) ==> #[trigger] regex_matches(
                        regex,
                        sign + (whole + part),
                    )
                &&& forall|sign: Seq<char>, whole: Seq<char>, part: Seq<char>, exponent: Seq<char>|
                    is_sign(sign) && whole.len() == 1 && digits_from(whole, 0) && is_fraction_part(
                        part,
                        255,
                    ) && is_exponent(exponent, 2) ==> #[trigger] regex_matches(
                        regex,
                        sign + (whole + (part + exponent)),
                    )
            },
{
    lemma_mysql_float_text();
    let regex = mysql_float();
    let dot = CharSet::Dot;
    let digits = Regex::Either(Box::new(short_digits(dot)), Box::new(scientific_digits(dot)));
    let group = Regex::Group(Box::new(digits));
    reveal_with_fuel(regex_matches, 3);
    assert forall|text: Seq<char>| #[trigger] regex_matches(regex, text) implies is_numeric(text) by {
        let k = lemma_behind_minus(group, text);
        let rest = text.skip(k);
        assert(regex_matches(digits, rest));
        if regex_matches(short_digits(dot), rest) {
            lemma_numeric_part(short_digits(dot), rest);
        } else {
            lemma_numeric_part(scientific_digits(dot), rest);
        }
        lemma_numeric_behind(text, k);
    }
    assert forall|sign: Seq<char>, whole: Seq<char>, part: Seq<char>|
        is_sign(sign) && 1 <= whole.len() <= 255 && digits_from(whole, 0) && is_fraction_part(
            part,
            255,
        ) implies #[trigger] regex_matches(regex, sign + (whole + part)) by {
        lemma_sign(sign);
        lemma_short_float(dot, whole, part, Seq::empty());
        assert(regex_matches(digits, whole + part));
        lemma_in_turn(minus_regex(), group, sign, whole + part);
    }
    assert forall|sign: Seq<char>, whole: Seq<char>, part: Seq<char>, exponent: Seq<char>|
        is_sign(sign) && whole.len() == 1 && digits_from(whole, 0) && is_fraction_part(part, 255)
            && is_exponent(exponent, 2) implies #[trigger] regex_matches(
        regex,
        sign + (whole + (part + exponent)),
    ) by {
        lemma_sign(sign);
        lemma_short_float(dot, whole, part, exponent);
        assert(regex_matches(digits, whole + (part + exponent)));
        lemma_in_turn(minus_regex(), group, sign, whole + (part + exponent));
    }
    assert(mysql_spelling(regex, "DOUBLE"@, name) == mysql_cast_text(name, constant, data_type)->0);
}

} // verus!
