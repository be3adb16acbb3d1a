//! How SQLite compares floats.
//!
//! The condition that a statistic is a float is spelled in `sql_model`; here it is said
//! what it comes to.

use vstd::prelude::*;

use crate::metadata_provider_sqlite::sqlite_cast_text;
use crate::regex_model::{digits_from, is_exponent, is_fraction_part, is_numeric, is_sign};
use crate::scan::is_digit;
use crate::sql_model::{
    between_digits, both, digit, glob_matches, has_mark, has_more, has_other, has_sign, holds,
    is_mantissa, later_minus, lemma_digit_chars, lemma_float_spelling, lemma_glob_step, lemma_run,
    lemma_run_to_end, lemma_value_equals, lemma_value_like, lemma_value_logic, ltrimmed,
    number_start, one, place_of, rtrimmed, run, some_digit, sqlite_exponent, sqlite_fixed_decimal,
    sqlite_float, sqlite_is_number, sqlite_mantissa, sqlite_mark, sqlite_reads, sqlite_scientific,
    sqlite_sign, sqlite_value, starts_in_digit, substring, truth, Glob, GlobItem, SqlValue,
    SqliteExpr,
};
use crate::types::DataType;

verus! {

proof fn lemma_ltrim(text: Seq<char>, chars: Seq<char>) -> (n: int)
    ensures
        0 <= n <= text.len(),
        ltrimmed(text, chars) == text.skip(n),
        forall|i: int| 0 <= i < n ==> chars.contains(#[trigger] text[i]),
        n < text.len() ==> !chars.contains(text[n]),
    decreases text.len(),
{
    if text.len() > 0 && chars.contains(text[0]) {
        let rest = text.skip(1);
        let n = lemma_ltrim(rest, chars);
        assert(rest.skip(n) =~= text.skip(n + 1));
        assert forall|i: int| 0 <= i < n + 1 implies chars.contains(#[trigger] text[i]) by {
            if i > 0 {
                assert(rest[i - 1] == text[i]);
            }
        }
        n + 1
    } else {
        assert(text.skip(0) =~= text);
        0
    }
}

proof fn lemma_rtrim(text: Seq<char>, chars: Seq<char>) -> (m: int)
    ensures
        0 <= m <= text.len(),
        rtrimmed(text, chars) == text.take(m),
        forall|i: int| m <= i < text.len() ==> chars.contains(#[trigger] text[i]),
        m > 0 ==> !chars.contains(text[m - 1]),
    decreases text.len(),
{
    if text.len() > 0 && chars.contains(text.last()) {
        let rest = text.drop_last();
        let m = lemma_rtrim(rest, chars);
        assert(rest.take(m) =~= text.take(m));
        assert forall|i: int| m <= i < text.len() implies chars.contains(#[trigger] text[i]) by {
            if i < rest.len() {
                assert(rest[i] == text[i]);
            }
        }
        m
    } else {
        assert(text.take(text.len() as int) =~= text);
        text.len() as int
    }
}

proof fn lemma_minus_char(c: char)
    ensures
        "-"@.contains(c) <==> c == '-',
{
    reveal_strlit("-");
    if c == '-' {
        assert("-"@[0] == c);
    }
}

proof fn lemma_number_start(text: Seq<char>)
    ensures
        glob_matches(number_start(), text) <==> text.len() > 0 && (is_digit(text[0]) || text[0]
            == '-'),
{
    if text.len() > 0 {
        lemma_run_to_end(text.skip(1));
    }
}

proof fn lemma_later_minus(text: Seq<char>)
    ensures
        glob_matches(later_minus(), text) <==> exists|k: int|
            1 <= k < text.len() && #[trigger] text[k] == '-',
{
    let rest = one('-', run(Glob::End));
    if text.len() > 0 {
        let t = text.skip(1);
        lemma_run(rest, t);
        if glob_matches(run(rest), t) {
            let k = choose|k: int| 0 <= k <= t.len() && #[trigger] glob_matches(rest, t.skip(k));
            lemma_glob_step(GlobItem::Char('-'), run(Glob::End), t, k);
            assert(text[k + 1] == '-');
        }
        if exists|k: int| 1 <= k < text.len() && #[trigger] text[k] == '-' {
            let k = choose|k: int| 1 <= k < text.len() && #[trigger] text[k] == '-';
            lemma_glob_step(GlobItem::Char('-'), run(Glob::End), t, k - 1);
            lemma_run_to_end(t.skip(k));
            assert(glob_matches(rest, t.skip(k - 1)));
        }
    }
}

proof fn lemma_some_digit(text: Seq<char>)
    ensures
        glob_matches(some_digit(), text) <==> exists|k: int|
            0 <= k < text.len() && is_digit(#[trigger] text[k]),
{
    let rest = digit(run(Glob::End));
    lemma_run(rest, text);
    if glob_matches(some_digit(), text) {
        let k = choose|k: int| 0 <= k <= text.len() && #[trigger] glob_matches(rest, text.skip(k));
        lemma_glob_step(GlobItem::Digit, run(Glob::End), text, k);
        assert(is_digit(text[k]));
    }
    if exists|k: int| 0 <= k < text.len() && is_digit(#[trigger] text[k]) {
        let k = choose|k: int| 0 <= k < text.len() && is_digit(#[trigger] text[k]);
        lemma_glob_step(GlobItem::Digit, run(Glob::End), text, k);
        lemma_run_to_end(text.skip(k + 1));
        assert(glob_matches(rest, text.skip(k)));
    }
}

proof fn lemma_some_other(text: Seq<char>)
    ensures
        glob_matches(run(Glob::Then(GlobItem::NotDigit, Box::new(run(Glob::End)))), text)
            <==> exists|k: int| 0 <= k < text.len() && !is_digit(#[trigger] text[k]),
{
    let rest = Glob::Then(GlobItem::NotDigit, Box::new(run(Glob::End)));
    lemma_run(rest, text);
    if glob_matches(run(rest), text) {
        let k = choose|k: int| 0 <= k <= text.len() && #[trigger] glob_matches(rest, text.skip(k));
        lemma_glob_step(GlobItem::NotDigit, run(Glob::End), text, k);
        assert(!is_digit(text[k]));
    }
    if exists|k: int| 0 <= k < text.len() && !is_digit(#[trigger] text[k]) {
        let k = choose|k: int| 0 <= k < text.len() && !is_digit(#[trigger] text[k]);
        lemma_glob_step(GlobItem::NotDigit, run(Glob::End), text, k);
        lemma_run_to_end(text.skip(k + 1));
        assert(glob_matches(rest, text.skip(k)));
    }
}

/// What is left of text between its digits, and behind its minus.
spec fn inner(text: Seq<char>) -> Seq<char> {
    rtrimmed(ltrimmed(ltrimmed(text, "-"@), "0123456789"@), "0123456789"@)
}

/// The conditions on a number but for the last.
spec fn looks_numeric(text: Seq<char>) -> bool {
    &&& text.len() > 0 && (is_digit(text[0]) || text[0] == '-')
    &&& !(exists|k: int| 1 <= k < text.len() && #[trigger] text[k] == '-')
    &&& exists|k: int|
        0 <= k < ltrimmed(text, "-"@).len() && is_digit(#[trigger] ltrimmed(text, "-"@)[k])
}

proof fn lemma_number_value(x: SqliteExpr, test: SqliteExpr, s: Seq<char>, text: Seq<char>)
    requires
        sqlite_value(x, s) == SqlValue::Text(text),
    ensures
        holds(sqlite_value(sqlite_is_number(x, test), s)) <==> looks_numeric(text) && holds(
            sqlite_value(test, s),
        ),
        sqlite_value(between_digits(x), s) == SqlValue::Text(inner(text)),
{
    let trimmed = SqliteExpr::Ltrim(Box::new(x), "-"@);
    let a = SqliteExpr::Like(Box::new(x), number_start());
    let b0 = SqliteExpr::Like(Box::new(x), later_minus());
    let b = SqliteExpr::Not(Box::new(b0));
    let c = SqliteExpr::Like(Box::new(trimmed), some_digit());
    let ab = both(a, b);
    let abc = both(ab, c);
    assert(sqlite_value(trimmed, s) == SqlValue::Text(ltrimmed(text, "-"@)));
    lemma_value_like(x, number_start(), s, text);
    lemma_value_like(x, later_minus(), s, text);
    lemma_value_like(trimmed, some_digit(), s, ltrimmed(text, "-"@));
    lemma_number_start(text);
    lemma_later_minus(text);
    lemma_some_digit(ltrimmed(text, "-"@));
    lemma_value_logic(b0, b0, s);
    lemma_value_logic(a, b, s);
    lemma_value_logic(ab, c, s);
    lemma_value_logic(abc, test, s);
    reveal_with_fuel(sqlite_value, 4);
}

/// Digits with a minus at most in front, and with a fraction at most behind.
proof fn lemma_plain_number(sign: Seq<char>, whole: Seq<char>, part: Seq<char>)
    requires
        is_sign(sign),
        whole.len() > 0,
        digits_from(whole, 0),
        is_fraction_part(part, part.len()),
    ensures
        looks_numeric(sign + whole + part),
        inner(sign + whole + part) == if part.len() == 0 {
            Seq::empty()
        } else {
            "."@
        },
{
    let text = sign + whole + part;
    let (minus, digits) = ("-"@, "0123456789"@);
    reveal_strlit(".");
    let n = lemma_ltrim(text, minus);
    assert(text[sign.len() as int] == whole[0]);
    lemma_minus_char(text[sign.len() as int]);
    if n > sign.len() {
        assert(minus.contains(text[sign.len() as int]));
    }
    if n < sign.len() {
        lemma_minus_char(text[n]);
        assert(text[n] == sign[n]);
    }
    assert(n == sign.len());
    let t1 = text.skip(n);
    assert(t1 =~= whole + part);
    let m = lemma_ltrim(t1, digits);
    if m < whole.len() {
        lemma_digit_chars(t1[m]);
        assert(t1[m] == whole[m]);
    }
    if m > whole.len() {
        lemma_digit_chars(t1[whole.len() as int]);
        assert(t1[whole.len() as int] == part[0]);
    }
    assert(m == whole.len());
    let t2 = t1.skip(m);
    assert(t2 =~= part);
    let r = lemma_rtrim(t2, digits);
    if part.len() > 0 {
        if r > 1 {
            lemma_digit_chars(t2[r - 1]);
            assert(part[r - 1] == t2[r - 1]);
        }
        if r == 0 {
            lemma_digit_chars(t2[0]);
        }
        assert(t2.take(1) =~= "."@);
    }
    assert(is_digit(t1[0]));
    assert(text[0] == if sign.len() == 0 {
        whole[0]
    } else {
        '-'
    });
    assert forall|k: int| 1 <= k < text.len() implies #[trigger] text[k] != '-' by {
        if k < sign.len() + whole.len() {
            assert(text[k] == whole[k - sign.len()]);
        } else {
            assert(text[k] == part[k - sign.len() - whole.len()]);
        }
    }
}

/// Text of which nothing but a point is left between the digits holds nothing else.
proof fn lemma_inner_is_numeric(text: Seq<char>)
    requires
        inner(text) == "."@ || inner(text).len() == 0,
    ensures
        is_numeric(text),
{
    let (minus, digits) = ("-"@, "0123456789"@);
    reveal_strlit(".");
    let n = lemma_ltrim(text, minus);
    let t1 = text.skip(n);
    let m = lemma_ltrim(t1, digits);
    let t2 = t1.skip(m);
    let r = lemma_rtrim(t2, digits);
    assert forall|i: int| 0 <= i < text.len() implies '0' <= #[trigger] text[i] <= '9' || text[i]
        == '.' || text[i] == 'e' || text[i] == '+' || text[i] == '-' by {
        lemma_minus_char(text[i]);
        lemma_digit_chars(text[i]);
        if i < n {
            assert(minus.contains(text[i]));
        } else if i < n + m {
            assert(t1[i - n] == text[i]);
            assert(digits.contains(t1[i - n]));
            assert(is_digit(text[i]));
        } else if i < n + m + r {
            assert(t2.take(r)[i - n - m] == text[i]);
            assert(inner(text) == t2.take(r));
            assert("."@.len() == 1 && "."@[0] == '.');
            assert(t2.take(r).len() == r);
            assert(inner(text).len() > 0);
            assert(r == 1 && i - n - m == 0);
            assert(t2.take(r)[0] == '.');
        } else {
            assert(t2[i - n - m] == text[i]);
            assert(digits.contains(t2[i - n - m]));
            assert(is_digit(text[i]));
        }
    }
}

proof fn lemma_place(text: Seq<char>, c: char)
    ensures
        0 <= place_of(text, c) <= text.len(),
        place_of(text, c) > 0 ==> text[place_of(text, c) - 1] == c,
        forall|i: int| 0 <= i < place_of(text, c) - 1 ==> #[trigger] text[i] != c,
        place_of(text, c) == 0 ==> forall|i: int| 0 <= i < text.len() ==> #[trigger] text[i] != c,
    decreases text.len(),
{
    if text.len() > 0 && text[0] != c {
        let rest = text.skip(1);
        lemma_place(rest, c);
        let p = place_of(text, c);
        if p > 0 {
            assert(rest[p - 2] == text[p - 1]);
            assert forall|i: int| 0 <= i < p - 1 implies #[trigger] text[i] != c by {
                if i > 0 {
                    assert(rest[i - 1] == text[i]);
                }
            }
        } else {
            assert forall|i: int| 0 <= i < text.len() implies #[trigger] text[i] != c by {
                if i > 0 {
                    assert(rest[i - 1] == text[i]);
                }
            }
        }
    }
}

/// What the conditions of scientific notation come to.
spec fn looks_scientific(text: Seq<char>) -> bool {
    let p = place_of(text, 'e');
    &&& p > 1
    &&& looks_numeric(text.take(p - 1))
    &&& inner(text.take(p - 1)).len() == 0 || inner(text.take(p - 1)) == "."@
    &&& text.len() > p + 1
    &&& text[p] == '-' || text[p] == '+'
    &&& digits_from(text, p + 1)
}

proof fn lemma_mark_value(text: Seq<char>)
    ensures
        sqlite_value(sqlite_mark(), text) == SqlValue::Integer(place_of(text, 'e')),
        sqlite_value(has_mark(), text) == truth(place_of(text, 'e') > 1),
        place_of(text, 'e') > 1 ==> sqlite_value(sqlite_mantissa(), text) == SqlValue::Text(
            text.take(place_of(text, 'e') - 1),
        ),
        sqlite_value(has_more(), text) == truth(text.len() > place_of(text, 'e') + 1),
        0 < place_of(text, 'e') < text.len() ==> sqlite_value(sqlite_sign(), text)
            == SqlValue::Text(seq![text[place_of(text, 'e')]]),
        place_of(text, 'e') + 1 < text.len() ==> sqlite_value(sqlite_exponent(), text)
            == SqlValue::Text(text.skip(place_of(text, 'e') + 1)),
{
    reveal_strlit("e");
    lemma_place(text, 'e');
    let p = place_of(text, 'e');
    let x = SqliteExpr::Statistic;
    let mark = sqlite_mark();
    assert(sqlite_value(x, text) == SqlValue::Text(text));
    assert(sqlite_value(mark, text) == SqlValue::Integer(p));
    assert(sqlite_value(SqliteExpr::Number(1), text) == SqlValue::Integer(1));
    assert(sqlite_value(SqliteExpr::Minus(Box::new(mark), 1), text) == SqlValue::Integer(p - 1));
    assert(sqlite_value(SqliteExpr::Plus(Box::new(mark), 1), text) == SqlValue::Integer(p + 1));
    assert(sqlite_value(SqliteExpr::Plus(Box::new(mark), 2), text) == SqlValue::Integer(p + 2));
    assert(sqlite_value(SqliteExpr::Length(Box::new(x)), text) == SqlValue::Integer(
        text.len() as int,
    ));
    assert(sqlite_value(sqlite_mantissa(), text) == SqlValue::Text(substring(text, 1, p - 1)));
    assert(sqlite_value(sqlite_sign(), text) == SqlValue::Text(substring(text, p + 1, 1)));
    assert(sqlite_value(sqlite_exponent(), text) == SqlValue::Text(
        substring(text, p + 2, text.len() as int),
    ));
    if p > 1 {
        assert(substring(text, 1, p - 1) =~= text.take(p - 1));
    }
    if 0 < p < text.len() {
        assert(substring(text, p + 1, 1) =~= seq![text[p]]);
    }
    if p + 1 < text.len() {
        assert(substring(text, p + 2, text.len() as int) =~= text.skip(p + 1));
    }
}

proof fn lemma_scientific_value(text: Seq<char>)
    ensures
        holds(sqlite_value(sqlite_scientific(), text)) <==> looks_scientific(text),
{
    lemma_mark_value(text);
    lemma_place(text, 'e');
    let p = place_of(text, 'e');
    let a = both(has_mark(), is_mantissa());
    let b = both(a, has_sign());
    let c = both(b, has_more());
    let d = both(c, starts_in_digit());
    let no = SqliteExpr::Not(Box::new(has_other()));
    lemma_value_logic(has_mark(), is_mantissa(), text);
    lemma_value_logic(a, has_sign(), text);
    lemma_value_logic(b, has_more(), text);
    lemma_value_logic(c, starts_in_digit(), text);
    lemma_value_logic(d, no, text);
    lemma_value_logic(has_other(), has_other(), text);
    if p > 1 && text.len() > p + 1 {
        let front = text.take(p - 1);
        let test = SqliteExpr::OneOf(Box::new(between_digits(sqlite_mantissa())), ""@, "."@);
        lemma_number_value(sqlite_mantissa(), test, text, front);
        reveal_strlit("");
        assert(""@ =~= Seq::<char>::empty());
        assert(sqlite_value(test, text) == truth(inner(front) == ""@ || inner(front) == "."@));
        assert(inner(front).len() == 0 ==> inner(front) =~= ""@);
        let sign = Glob::Then(GlobItem::Sign, Box::new(Glob::End));
        lemma_value_like(sqlite_sign(), sign, text, seq![text[p]]);
        reveal_with_fuel(glob_matches, 3);
        assert(seq![text[p]].skip(1).len() == 0);
        assert(glob_matches(sign, seq![text[p]]) <==> text[p] == '-' || text[p] == '+');
        let rest = text.skip(p + 1);
        let other = run(Glob::Then(GlobItem::NotDigit, Box::new(run(Glob::End))));
        lemma_value_like(sqlite_exponent(), digit(run(Glob::End)), text, rest);
        lemma_value_like(sqlite_exponent(), other, text, rest);
        lemma_some_other(rest);
        assert(rest.skip(0) =~= rest);
        lemma_glob_step(GlobItem::Digit, run(Glob::End), rest, 0);
        lemma_run_to_end(rest.skip(1));
        if digits_from(text, p + 1) {
            assert forall|k: int| 0 <= k < rest.len() implies is_digit(#[trigger] rest[k]) by {
                assert(rest[k] == text[k + p + 1]);
            }
        } else {
            let k = choose|k: int|
                p + 1 <= k < text.len() && !('0' <= #[trigger] text[k] <= '9');
            assert(rest[k - p - 1] == text[k]);
            assert(!is_digit(rest[k - p - 1]));
        }
    }
}

/// SQLite compares floats as reals. Numbers that are written with a fraction or with an
/// exponent count; text that is no number, `nan` and `inf` among it, does not.
pub proof fn lemma_sqlite_float_bounds(name: Seq<char>, constant: Seq<char>, data_type: DataType)
    requires
        data_type is Float32 || data_type is Float64,
    ensures
        sqlite_cast_text(name, constant, data_type) matches Some(sql) && exists|e: SqliteExpr|
            #![trigger sqlite_reads(e, name, sql)]
            {
                &&& sqlite_reads(e, name, sql)
                &&& forall|text: Seq<char>|
                    #![trigger sqlite_value(e, text)]
                    (sqlite_value(e, text) is Null || sqlite_value(e, text) == SqlValue::Real(text))
                        && (sqlite_value(e, text) !is Null ==> is_numeric(text))
                &&& forall|sign: Seq<char>, whole: Seq<char>, part: Seq<char>|
                    #![trigger sqlite_value(e, sign + whole + part)]
                    is_sign(sign) && whole.len() > 0
                        && digits_from(whole, 0)
                        && is_fraction_part(part, part.len()) && part.len() > 0
                        ==> sqlite_value(e, sign + whole + part) == SqlValue::Real(
                        sign + whole + part,
                    )
                &&& forall|sign: Seq<char>, whole: Seq<char>, part: Seq<char>, exponent: Seq<char>|
                    #![trigger sqlite_value(e, sign + whole + part + exponent)]
                    is_sign(sign) && whole.len() > 0
                        && digits_from(whole, 0)
                        && is_fraction_part(part, part.len())
                        && is_exponent(exponent, exponent.len())
                        ==> sqlite_value(e, sign + whole + part + exponent) == SqlValue::Real(
                        sign + whole + part + exponent,
                    )
            },
{
    let e = sqlite_float();
    lemma_float_spelling(name);
    assert(sqlite_reads(e, name, sqlite_cast_text(name, constant, data_type)->0));
    assert forall|text: Seq<char>|
        #![trigger sqlite_value(e, text)]
        (sqlite_value(e, text) is Null || sqlite_value(e, text) == SqlValue::Real(text)) && (
        sqlite_value(e, text) !is Null ==> is_numeric(text)) by {
        lemma_float_value(text);
        if looks_scientific(text) {
            let p = place_of(text, 'e');
            lemma_place(text, 'e');
            lemma_inner_is_numeric(text.take(p - 1));
            assert forall|i: int| 0 <= i < text.len() implies '0' <= #[trigger] text[i] <= '9'
                || text[i] == '.' || text[i] == 'e' || text[i] == '+' || text[i] == '-' by {
                if i < p - 1 {
                    assert(text.take(p - 1)[i] == text[i]);
                }
            }
        } else if looks_numeric(text) && inner(text) == "."@ {
            lemma_inner_is_numeric(text);
        }
    }
    assert forall|sign: Seq<char>, whole: Seq<char>, part: Seq<char>|
        #![trigger sqlite_value(e, sign + whole + part)]
        is_sign(sign) && whole.len() > 0 && digits_from(
            whole,
            0,
        ) && is_fraction_part(part, part.len()) && part.len()
            > 0 implies sqlite_value(e, sign + whole + part) == SqlValue::Real(
        sign + whole + part,
    ) by {
        lemma_plain_number(sign, whole, part);
        lemma_float_value(sign + whole + part);
    }
    assert forall|sign: Seq<char>, whole: Seq<char>, part: Seq<char>, exponent: Seq<char>|
        #![trigger sqlite_value(e, sign + whole + part + exponent)]
        is_sign(sign) && whole.len() > 0 && digits_from(
            whole,
            0,
        ) && is_fraction_part(part, part.len())
            && is_exponent(exponent, exponent.len()) implies sqlite_value(
        e,
        sign + whole + part + exponent,
    ) == SqlValue::Real(sign + whole + part + exponent) by {
        let front = sign + whole + part;
        let text = front + exponent;
        lemma_plain_number(sign, whole, part);
        lemma_place(text, 'e');
        let p = place_of(text, 'e');
        assert(text[front.len() as int] == 'e');
        assert forall|i: int| 0 <= i < front.len() implies #[trigger] text[i] != 'e' by {
            if i < sign.len() {
                assert(text[i] == sign[i]);
            } else if i < sign.len() + whole.len() {
                assert(text[i] == whole[i - sign.len()]);
            } else {
                assert(text[i] == part[i - sign.len() - whole.len()]);
            }
        }
        assert(p == front.len() + 1);
        assert(text.take(p - 1) =~= front);
        assert(text[p] == exponent[1]);
        assert forall|i: int| p + 1 <= i < text.len() implies '0' <= #[trigger] text[i] <= '9' by {
            assert(text[i] == exponent[i - front.len()]);
        }
        lemma_float_value(text);
    }
}

proof fn lemma_float_value(text: Seq<char>)
    ensures
        sqlite_value(sqlite_float(), text) == if (looks_numeric(text) && inner(text) == "."@)
            || looks_scientific(text) {
            SqlValue::Real(text)
        } else {
            SqlValue::Null
        },
{
    let x = SqliteExpr::Statistic;
    let left = between_digits(x);
    let right = SqliteExpr::Constant("."@);
    let test = SqliteExpr::Equals(Box::new(left), Box::new(right));
    assert(sqlite_value(x, text) == SqlValue::Text(text));
    lemma_number_value(x, test, text, text);
    assert(sqlite_value(right, text) == SqlValue::Text("."@));
    lemma_value_equals(left, right, text, inner(text), "."@);
    lemma_scientific_value(text);
    let a = SqliteExpr::Brackets(Box::new(sqlite_fixed_decimal()));
    let b = SqliteExpr::Brackets(Box::new(sqlite_scientific()));
    let or = SqliteExpr::Or(Box::new(a), Box::new(b));
    lemma_value_logic(sqlite_fixed_decimal(), sqlite_fixed_decimal(), text);
    lemma_value_logic(sqlite_scientific(), sqlite_scientific(), text);
    lemma_value_logic(a, b, text);
    lemma_value_logic(or, or, text);
    let cast = SqliteExpr::CastReal(Box::new(x));
    assert(sqlite_value(cast, text) == SqlValue::Real(text));
}

} // verus!
