//! Moments in time, and the text that the metadata database compares them by.

use vstd::prelude::*;

use crate::order::{lemma_different_start, lemma_same_start, lemma_text_order, text_order};
use crate::text::digit_char;

verus! {

/// A moment: seconds since the start of 1970 in UTC, and the nanoseconds behind
/// them.
#[derive(Debug, Clone, Copy, PartialEq, Eq, Structural)]
pub struct UtcTimestamp {
    pub seconds: i64,
    pub nanos: u32,
}

impl UtcTimestamp {
    /// Whether this moment comes before `other`.
    pub open spec fn precedes(self, other: Self) -> bool {
        self.seconds < other.seconds || (self.seconds == other.seconds && self.nanos < other.nanos)
    }

    /// Whether this moment comes before `other`.
    pub fn is_before(&self, other: &Self) -> (before: bool)
        ensures
            before == self.precedes(*other),
    {
        self.seconds < other.seconds || (self.seconds == other.seconds && self.nanos < other.nanos)
    }
}

// ---------------------------------------------------------------------------
// The calendar
// ---------------------------------------------------------------------------

/// A moment by the Gregorian calendar, to the microsecond.
pub struct CivilTime {
    pub year: int,
    pub month: int,
    pub day: int,
    pub hour: int,
    pub minute: int,
    pub second: int,
    pub micros: int,
}

/// Whether a year has a leap day.
pub open spec fn is_leap(year: int) -> bool {
    year % 4 == 0 && (year % 100 != 0 || year % 400 == 0)
}

/// How many days lie between the start of year 0 and the start of `year`.
pub open spec fn days_before_year(year: int) -> int {
    365 * year + (year + 3) / 4 - (year + 99) / 100 + (year + 399) / 400
}

/// How many days of a year lie in front of a month.
pub open spec fn days_before_month(year: int, month: int) -> int {
    let leap_day: int = if is_leap(year) && month > 2 {
        1
    } else {
        0
    };
    leap_day + if month <= 1 {
        0
    } else if month == 2 {
        31
    } else if month == 3 {
        59
    } else if month == 4 {
        90
    } else if month == 5 {
        120
    } else if month == 6 {
        151
    } else if month == 7 {
        181
    } else if month == 8 {
        212
    } else if month == 9 {
        243
    } else if month == 10 {
        273
    } else if month == 11 {
        304
    } else if month == 12 {
        334
    } else {
        365int
    }
}

impl CivilTime {
    /// The month has such a day, the day such a time, and the year four digits. The
    /// sixty-first second of a minute is a leap second.
    pub open spec fn is_valid(self) -> bool {
        &&& 0 <= self.year <= 9999
        &&& 1 <= self.month <= 12
        &&& 1 <= self.day
        &&& days_before_month(self.year, self.month) + self.day <= days_before_month(
            self.year,
            self.month + 1,
        )
        &&& 0 <= self.hour <= 23
        &&& 0 <= self.minute <= 59
        &&& 0 <= self.second <= 60
        &&& 0 <= self.micros <= 999_999
    }

    /// How many days lie between the start of year 0 and this day.
    pub open spec fn days(self) -> int {
        days_before_year(self.year) + days_before_month(self.year, self.month) + self.day - 1
    }

    /// How many seconds lie between the start of 1970 and this moment. A leap second is
    /// counted with the second before it.
    pub open spec fn unix_seconds(self) -> int {
        (self.days() - days_before_year(1970)) * 86_400 + self.hour * 3_600 + self.minute * 60
            + if self.second == 60 {
            59
        } else {
            self.second
        }
    }
}

/// `n` in decimal, with that many digits.
pub open spec fn padded(n: int, width: nat) -> Seq<char>
    decreases width,
{
    if width == 0 {
        Seq::empty()
    } else {
        padded(n / 10, (width - 1) as nat).push(digit_char((n % 10) as nat))
    }
}

/// A moment as text: the date, a space and the time with six digits behind the
/// second.
pub open spec fn civil_text(time: CivilTime) -> Seq<char> {
    padded(time.year, 4) + (seq!['-'] + (padded(time.month, 2) + (seq!['-'] + (padded(time.day, 2)
        + (seq![' '] + (padded(time.hour, 2) + (seq![':'] + (padded(time.minute, 2) + (seq![':'] + (
    padded(time.second, 2) + (seq!['.'] + padded(time.micros, 6))))))))))))
}

/// Whether a moment lies in the years that are written with four digits.
pub open spec fn has_four_digit_year(seconds: int) -> bool {
    -62_167_219_200 <= seconds <= 253_402_300_799
}

/// Whether seconds and nanoseconds name a moment. In a leap second, which comes at the
/// end of a minute, the nanoseconds go on behind those of the second before it.
pub open spec fn is_moment(seconds: int, nanos: int) -> bool {
    nanos < 1_000_000_000 || (nanos < 2_000_000_000 && seconds % 60 == 59)
}

/// Whether `text` is how a moment is written.
pub open spec fn is_text_of(time: UtcTimestamp, text: Seq<char>) -> bool {
    exists|civil: CivilTime| #[trigger] is_written_as(time, civil, text)
}

/// Whether `text` is how a moment is written, which is `civil` by the calendar.
pub open spec fn is_written_as(time: UtcTimestamp, civil: CivilTime, text: Seq<char>) -> bool {
    &&& is_moment(time.seconds as int, time.nanos as int)
    &&& civil.is_valid()
    &&& civil.unix_seconds() == time.seconds
    &&& civil.second == 60 <==> time.nanos >= 1_000_000_000
    &&& civil.micros == time.nanos as int / 1_000 % 1_000_000
    &&& text == civil_text(civil)
}

// ---------------------------------------------------------------------------
// Writing a moment
// ---------------------------------------------------------------------------

/// How a moment is written for SQL.
pub const SQL_TIMESTAMP_FORMAT: &'static str = "%Y-%m-%d %H:%M:%S%.6f";

/// What `chrono` writes for a moment in the format of `SQL_TIMESTAMP_FORMAT`; nothing
/// where it has no such moment.
pub uninterp spec fn chrono_text(seconds: i64, nanos: u32) -> Option<Seq<char>>;

/// `chrono::DateTime::from_timestamp` makes a moment of seconds and nanoseconds,
/// unless they name none or it is out of the range of its calendar, and
/// `DateTime::format` writes it. What comes out depends on the moment alone. In the
/// years of four digits it is the date and the time by the Gregorian calendar,
/// zero-padded, with six digits behind the second and what is left behind them cut
/// off; a leap second is the sixty-first of its minute. Of years with more digits
/// nothing is said but that.
#[verifier::external_body]
fn format_utc(seconds: i64, nanos: u32, format: &str) -> (text: Option<String>)
    requires
        format@ == SQL_TIMESTAMP_FORMAT@,
    ensures
        match text {
            Some(written) => chrono_text(seconds, nanos) == Some(written@),
            None => chrono_text(seconds, nanos) is None,
        },
        has_four_digit_year(seconds as int) && is_moment(seconds as int, nanos as int)
            ==> text is Some && is_text_of((UtcTimestamp { seconds, nanos }), text->0@),
        !is_moment(seconds as int, nanos as int) ==> text is None,
{
    match chrono::DateTime::from_timestamp(seconds, nanos) {
        Some(moment) => Some(moment.format(format).to_string()),
        None => None,
    }
}

/// Writes a moment so that a metadata database reads and compares it correctly,
/// whether it keeps moments as such or as text.
pub fn format_sql_timestamp(time: &UtcTimestamp) -> (text: Option<String>)
    ensures
        match text {
            Some(written) => chrono_text(time.seconds, time.nanos) == Some(written@),
            None => chrono_text(time.seconds, time.nanos) is None,
        },
        has_four_digit_year(time.seconds as int) && is_moment(
            time.seconds as int,
            time.nanos as int,
        ) ==> text is Some && is_text_of(*time, text->0@),
        !is_moment(time.seconds as int, time.nanos as int) ==> text is None,
{
    format_utc(time.seconds, time.nanos, SQL_TIMESTAMP_FORMAT)
}

// ---------------------------------------------------------------------------
// Text order is the order of time
// ---------------------------------------------------------------------------

/// A year is at least 365 days long, and a leap year one more.
proof fn lemma_year_length(year: int)
    requires
        0 <= year,
    ensures
        days_before_year(year + 1) == days_before_year(year) + days_before_month(year, 13),
{
}

/// Later years start later, with every day of the earlier one in between.
proof fn lemma_years(a: int, b: int)
    requires
        0 <= a < b,
    ensures
        days_before_year(a) + days_before_month(a, 13) <= days_before_year(b),
    decreases b - a,
{
    lemma_year_length(a);
    if a + 1 < b {
        lemma_years(a + 1, b);
    }
}

/// How `a` stands to `b`, field by field.
pub open spec fn comes_before(a: CivilTime, b: CivilTime) -> bool {
    ||| a.year < b.year
    ||| a.year == b.year && a.month < b.month
    ||| a.year == b.year && a.month == b.month && a.day < b.day
    ||| a.year == b.year && a.month == b.month && a.day == b.day && a.hour < b.hour
    ||| a.year == b.year && a.month == b.month && a.day == b.day && a.hour == b.hour && a.minute
        < b.minute
    ||| a.year == b.year && a.month == b.month && a.day == b.day && a.hour == b.hour && a.minute
        == b.minute && a.second < b.second
    ||| a.year == b.year && a.month == b.month && a.day == b.day && a.hour == b.hour && a.minute
        == b.minute && a.second == b.second && a.micros < b.micros
}

/// The calendar keeps the order of time.
proof fn lemma_calendar_order(a: CivilTime, b: CivilTime)
    requires
        a.is_valid(),
        b.is_valid(),
        comes_before(a, b),
    ensures
        a.unix_seconds() < b.unix_seconds() || (a.unix_seconds() == b.unix_seconds() && (
        a.second < b.second || (a.second == b.second && a.micros < b.micros))),
{
    if a.year < b.year {
        lemma_years(a.year, b.year);
        assert(a.days() < b.days());
    } else if a.month < b.month {
        assert(a.days() < b.days());
    }
}

/// Zero-padded numbers of one width are ordered as text as they are as numbers.
proof fn lemma_padded_order(x: int, y: int, width: nat, limit: int)
    requires
        0 <= x < y < limit,
        limit == vstd::arithmetic::power::pow(10, width),
    ensures
        text_order(padded(x, width), padded(y, width)) < 0,
        padded(x, width) != padded(y, width),
    decreases width,
{
    vstd::arithmetic::power::lemma_pow0(10);
    if width > 0 {
        let rest = (width - 1) as nat;
        let shorter = vstd::arithmetic::power::pow(10, rest);
        reveal(vstd::arithmetic::power::pow);
        assert(limit == 10 * shorter);
        let (p, q) = (padded(x / 10, rest), padded(y / 10, rest));
        let (c, d) = (digit_char((x % 10) as nat), digit_char((y % 10) as nat));
        lemma_padded_len(x / 10, rest);
        lemma_padded_len(y / 10, rest);
        assert(padded(x, width) =~= p + seq![c]);
        assert(padded(y, width) =~= q + seq![d]);
        if x / 10 == y / 10 {
            assert(x % 10 < y % 10);
            assert(c < d);
            lemma_same_start(p, seq![c], seq![d]);
            assert(text_order(seq![c], seq![d]) < 0);
        } else {
            lemma_padded_order(x / 10, y / 10, rest, shorter);
            lemma_different_start(p, q, seq![c], seq![d]);
        }
        lemma_text_order(padded(x, width), padded(y, width));
    }
}

proof fn lemma_padded_len(n: int, width: nat)
    ensures
        padded(n, width).len() == width,
    decreases width,
{
    if width > 0 {
        lemma_padded_len(n / 10, (width - 1) as nat);
    }
}

/// The order of two texts that start with zero-padded numbers of one width.
proof fn lemma_field_order(x: int, y: int, width: nat, limit: int, a: Seq<char>, b: Seq<char>)
    requires
        0 <= x < limit,
        0 <= y < limit,
        limit == vstd::arithmetic::power::pow(10, width),
    ensures
        x < y ==> text_order(padded(x, width) + a, padded(y, width) + b) < 0,
        x == y ==> text_order(padded(x, width) + a, padded(y, width) + b) == text_order(a, b),
{
    lemma_padded_len(x, width);
    lemma_padded_len(y, width);
    if x < y {
        lemma_padded_order(x, y, width, limit);
        lemma_different_start(padded(x, width), padded(y, width), a, b);
    } else if x == y {
        lemma_same_start(padded(x, width), a, b);
    }
}

/// Text of the calendar is ordered field by field.
proof fn lemma_civil_text_order(a: CivilTime, b: CivilTime)
    requires
        a.is_valid(),
        b.is_valid(),
        comes_before(a, b),
    ensures
        text_order(civil_text(a), civil_text(b)) < 0,
{
    reveal_with_fuel(vstd::arithmetic::power::pow, 7);
    let (a7, b7) = (padded(a.micros, 6), padded(b.micros, 6));
    let (a6, b6) = (padded(a.second, 2) + (seq!['.'] + a7), padded(b.second, 2) + (seq!['.'] + b7));
    let (a5, b5) = (padded(a.minute, 2) + (seq![':'] + a6), padded(b.minute, 2) + (seq![':'] + b6));
    let (a4, b4) = (padded(a.hour, 2) + (seq![':'] + a5), padded(b.hour, 2) + (seq![':'] + b5));
    let (a3, b3) = (padded(a.day, 2) + (seq![' '] + a4), padded(b.day, 2) + (seq![' '] + b4));
    let (a2, b2) = (padded(a.month, 2) + (seq!['-'] + a3), padded(b.month, 2) + (seq!['-'] + b3));
    lemma_field_order(a.year, b.year, 4, 10_000, seq!['-'] + a2, seq!['-'] + b2);
    lemma_same_start(seq!['-'], a2, b2);
    lemma_month_bounds(a);
    lemma_month_bounds(b);
    lemma_field_order(a.month, b.month, 2, 100, seq!['-'] + a3, seq!['-'] + b3);
    lemma_same_start(seq!['-'], a3, b3);
    lemma_field_order(a.day, b.day, 2, 100, seq![' '] + a4, seq![' '] + b4);
    lemma_same_start(seq![' '], a4, b4);
    lemma_field_order(a.hour, b.hour, 2, 100, seq![':'] + a5, seq![':'] + b5);
    lemma_same_start(seq![':'], a5, b5);
    lemma_field_order(a.minute, b.minute, 2, 100, seq![':'] + a6, seq![':'] + b6);
    lemma_same_start(seq![':'], a6, b6);
    lemma_field_order(a.second, b.second, 2, 100, seq!['.'] + a7, seq!['.'] + b7);
    lemma_same_start(seq!['.'], a7, b7);
    if a.micros < b.micros {
        lemma_padded_order(a.micros, b.micros, 6, 1_000_000);
    }
}

proof fn lemma_month_bounds(time: CivilTime)
    requires
        time.is_valid(),
    ensures
        time.day <= 31,
{
}

/// How many microseconds a moment lies behind its second, by the calendar.
proof fn lemma_micros(time: UtcTimestamp, civil: CivilTime, text: Seq<char>)
    requires
        is_written_as(time, civil, text),
    ensures
        civil.unix_seconds() == time.seconds,
        time.nanos as int / 1_000 == civil.micros + if civil.second == 60 {
            1_000_000int
        } else {
            0
        },
        0 <= civil.micros < 1_000_000,
{
    let micros = time.nanos as int / 1_000;
    if time.nanos >= 1_000_000_000 {
        assert(1_000_000 <= micros < 2_000_000);
        assert(micros % 1_000_000 == micros - 1_000_000);
    } else {
        assert(0 <= micros < 1_000_000);
        assert(micros % 1_000_000 == micros);
    }
}

/// Of two moments by the calendar the one that stands in front is the earlier.
proof fn lemma_written_order(
    a: UtcTimestamp,
    b: UtcTimestamp,
    a_civil: CivilTime,
    b_civil: CivilTime,
    a_text: Seq<char>,
    b_text: Seq<char>,
)
    requires
        is_written_as(a, a_civil, a_text),
        is_written_as(b, b_civil, b_text),
        comes_before(a_civil, b_civil),
    ensures
        text_order(a_text, b_text) < 0,
        a.seconds < b.seconds || (a.seconds == b.seconds && a.nanos as int / 1_000 < b.nanos as int
            / 1_000),
{
    lemma_micros(a, a_civil, a_text);
    lemma_micros(b, b_civil, b_text);
    lemma_calendar_order(a_civil, b_civil);
    lemma_civil_text_order(a_civil, b_civil);
    if a.seconds == b.seconds && a_civil.second < b_civil.second {
        lemma_same_minute(a_civil, b_civil);
    }
}

/// Where two moments have one count of seconds and the seconds differ, the later one
/// is a leap second.
proof fn lemma_same_minute(a: CivilTime, b: CivilTime)
    requires
        a.is_valid(),
        b.is_valid(),
        a.unix_seconds() == b.unix_seconds(),
        a.second < b.second,
    ensures
        b.second == 60,
{
    if b.second < 60 {
        let m = (a.days() - days_before_year(1970)) * 1_440 + a.hour * 60 + a.minute;
        let n = (b.days() - days_before_year(1970)) * 1_440 + b.hour * 60 + b.minute;
        assert(a.unix_seconds() == m * 60 + a.second);
        assert(b.unix_seconds() == n * 60 + b.second);
        assert(false);
    }
}

/// Moments that are written for SQL are ordered as text as they are in time: of two
/// moments in the years of four digits, the text of the one that is earlier by
/// microseconds stands in front of the other, and moments of one microsecond have
/// one text.
pub proof fn lemma_sql_timestamps_sort(
    a: UtcTimestamp,
    b: UtcTimestamp,
    a_text: Seq<char>,
    b_text: Seq<char>,
)
    requires
        is_text_of(a, a_text),
        is_text_of(b, b_text),
    ensures
        text_order(a_text, b_text) < 0 <==> (a.seconds < b.seconds || (a.seconds == b.seconds
            && a.nanos as int / 1_000 < b.nanos as int / 1_000)),
        a_text == b_text <==> (a.seconds == b.seconds && a.nanos as int / 1_000 == b.nanos as int
            / 1_000),
{
    let a_civil = choose|civil: CivilTime| #[trigger] is_written_as(a, civil, a_text);
    let b_civil = choose|civil: CivilTime| #[trigger] is_written_as(b, civil, b_text);
    lemma_text_order(a_text, b_text);
    if comes_before(a_civil, b_civil) {
        lemma_written_order(a, b, a_civil, b_civil, a_text, b_text);
    } else if comes_before(b_civil, a_civil) {
        lemma_written_order(b, a, b_civil, a_civil, b_text, a_text);
    } else {
        assert(a_civil == b_civil);
        lemma_micros(a, a_civil, a_text);
        lemma_micros(b, b_civil, b_text);
    }
}

} // verus!
