//! The one spelling of dates and timestamps whose text order is their order in
//! time, and the checks for it.

use vstd::prelude::*;
use crate::order::{lemma_different_start, lemma_same_start, lemma_text_order, text_order};
use crate::scan::{digits_value, has_shape, is_digit, is_digits, matches_shape, text_ends_with};
use crate::text::{chars_of, string_of};

verus! {

/// `YYYY-MM-DD`.
pub open spec fn is_date_text(text: Seq<char>) -> bool {
    has_shape(text, "NNNN-NN-NN"@)
}

/// `YYYY-MM-DD HH:MM:SS`.
pub open spec fn is_whole_seconds_text(text: Seq<char>) -> bool {
    has_shape(text, "NNNN-NN-NN NN:NN:NN"@)
}

/// A `.` and digits of which the last is not `0`.
pub open spec fn is_trimmed_fraction(text: Seq<char>) -> bool {
    &&& text.len() > 1
    &&& text[0] == '.'
    &&& is_digits(text.skip(1))
    &&& text.last() != '0'
}

/// `YYYY-MM-DD HH:MM:SS`, with a fraction that does not end in `0` or without.
pub open spec fn is_timestamp_text(text: Seq<char>) -> bool {
    &&& text.len() >= 19
    &&& is_whole_seconds_text(text.take(19))
    &&& text.len() == 19 || is_trimmed_fraction(text.skip(19))
}

/// A timestamp text followed by `+00`.
pub open spec fn is_timestamptz_text(text: Seq<char>) -> bool {
    &&& "+00"@.is_suffix_of(text)
    &&& is_timestamp_text(text.take(text.len() - 3))
}

/// Whether `text` is a date in the canonical spelling.
pub fn is_canonical_date(text: &str) -> (canonical: bool)
    ensures
        canonical == is_date_text(text@),
{
    matches_shape(text, "NNNN-NN-NN")
}

/// Whether `text` is a timestamp in the canonical spelling.
pub fn is_canonical_timestamp(text: &str) -> (canonical: bool)
    ensures
        canonical == is_timestamp_text(text@),
{
    let chars = chars_of(text);
    if chars.len() < 19 {
        return false;
    }
    let base = string_of(&chars, 0, 19);
    assert(base@ =~= text@.take(19));
    if !matches_shape(base.as_str(), "NNNN-NN-NN NN:NN:NN") {
        return false;
    }
    if chars.len() == 19 {
        return true;
    }
    let ghost fraction = text@.skip(19);
    if chars[19] != '.' || chars.len() == 20 || chars[chars.len() - 1] == '0' {
        return false;
    }
    let mut i: usize = 20;
    while i < chars.len()
        invariant
            20 <= i <= chars@.len(),
            chars@ == text@,
            fraction == text@.skip(19),
            forall|k: int| 0 <= k < i - 20 ==> is_digit(#[trigger] fraction.skip(1)[k]),
        decreases chars@.len() - i,
    {
        let c: char = chars[i];
        assert(fraction.skip(1)[i - 20] == c);
        if !('0' <= c && c <= '9') {
            return false;
        }
        i = i + 1;
    }
    true
}

/// Whether `text` is a timestamp in UTC in the canonical spelling.
pub fn is_canonical_timestamptz(text: &str) -> (canonical: bool)
    ensures
        canonical == is_timestamptz_text(text@),
{
    proof {
        reveal_strlit("+00");
    }
    if !text_ends_with(text, "+00") {
        return false;
    }
    let chars = chars_of(text);
    let body = string_of(&chars, 0, chars.len() - 3);
    assert(body@ =~= text@.take(text@.len() - 3));
    is_canonical_timestamp(body.as_str())
}

// ---------------------------------------------------------------------------
// Text order is the order of time
// ---------------------------------------------------------------------------

/// The digits of a text, in their order.
pub open spec fn digits_of(text: Seq<char>) -> Seq<char>
    decreases text.len(),
{
    if text.len() == 0 {
        Seq::empty()
    } else if is_digit(text[0]) {
        seq![text[0]] + digits_of(text.skip(1))
    } else {
        digits_of(text.skip(1))
    }
}

/// `n` zeros.
pub open spec fn zeros(n: int) -> Seq<char> {
    Seq::new(n as nat, |i: int| '0')
}

/// How many digits the fraction of a timestamp has.
pub open spec fn fraction_digits(text: Seq<char>) -> int {
    if text.len() > 19 {
        text.len() - 20
    } else {
        0
    }
}

/// The moment that a timestamp text names, as one number: year, month, day, hour,
/// minute and second, and the fraction to `width` digits.
pub open spec fn moment(text: Seq<char>, width: int) -> int {
    digits_value(digits_of(text) + zeros(width - fraction_digits(text)))
}

/// How a number stands to zero.
spec fn sign(n: int) -> int {
    if n < 0 {
        -1
    } else if n > 0 {
        1
    } else {
        0
    }
}

/// Digit strings of one length are ordered as the numbers they are.
proof fn lemma_digits_order(x: Seq<char>, y: Seq<char>)
    requires
        x.len() == y.len(),
        forall|i: int| 0 <= i < x.len() ==> is_digit(#[trigger] x[i]),
        forall|i: int| 0 <= i < y.len() ==> is_digit(#[trigger] y[i]),
    ensures
        sign(text_order(x, y)) == sign(digits_value(x) - digits_value(y)),
    decreases x.len(),
{
    if x.len() == 0 {
        assert(x =~= y);
        lemma_text_order(x, y);
    } else {
        let (p, q) = (x.drop_last(), y.drop_last());
        let (c, d) = (x.last(), y.last());
        assert(x =~= p + seq![c]);
        assert(y =~= q + seq![d]);
        lemma_digits_order(p, q);
        lemma_text_order(p, q);
        if p == q {
            lemma_same_start(p, seq![c], seq![d]);
            lemma_text_order(seq![c], seq![d]);
            assert(seq![c][0] == c && seq![d][0] == d);
            if c == d {
                assert(text_order(seq![c], seq![d]) == 0);
            }
        } else {
            lemma_different_start(p, q, seq![c], seq![d]);
        }
    }
}

/// Whether two texts of one length have their digits at the same places, and agree
/// everywhere else.
spec fn same_layout(x: Seq<char>, y: Seq<char>) -> bool {
    &&& x.len() == y.len()
    &&& forall|i: int|
        0 <= i < x.len() ==> if is_digit(#[trigger] x[i]) {
            is_digit(y[i])
        } else {
            x[i] == y[i]
        }
}

/// What stands between the digits does not matter.
proof fn lemma_layout_order(
    x: Seq<char>,
    y: Seq<char>,
    r: Seq<char>,
    s: Seq<char>,
    u: Seq<char>,
    v: Seq<char>,
)
    requires
        same_layout(x, y),
        sign(text_order(r, s)) == sign(text_order(u, v)),
    ensures
        sign(text_order(x + r, y + s)) == sign(text_order(digits_of(x) + u, digits_of(y) + v)),
        digits_of(x).len() == digits_of(y).len(),
    decreases x.len(),
{
    if x.len() == 0 {
        assert(x + r =~= r);
        assert(y + s =~= s);
        assert(digits_of(x) + u =~= u);
        assert(digits_of(y) + v =~= v);
    } else {
        let (x_rest, y_rest) = (x.skip(1), y.skip(1));
        assert(same_layout(x_rest, y_rest)) by {
            assert forall|i: int| 0 <= i < x_rest.len() implies if is_digit(#[trigger] x_rest[i]) {
                is_digit(y_rest[i])
            } else {
                x_rest[i] == y_rest[i]
            } by {
                assert(x_rest[i] == x[i + 1]);
            }
        }
        lemma_layout_order(x_rest, y_rest, r, s, u, v);
        assert((x + r).skip(1) =~= x_rest + r);
        assert((y + s).skip(1) =~= y_rest + s);
        assert(is_digit(x[0]) ==> is_digit(y[0]));
        if is_digit(x[0]) {
            let (x_digits, y_digits) = (digits_of(x_rest), digits_of(y_rest));
            assert((digits_of(x) + u).skip(1) =~= x_digits + u);
            assert((digits_of(y) + v).skip(1) =~= y_digits + v);
            assert((digits_of(x) + u)[0] == x[0]);
            assert((digits_of(y) + v)[0] == y[0]);
        }
    }
}

/// Zeros stand in front of every digit string that does not consist of zeros.
proof fn lemma_zeros_order(width: int, g: Seq<char>)
    requires
        0 < g.len() <= width,
        is_digits(g),
        g.last() != '0',
    ensures
        text_order(zeros(width), g + zeros(width - g.len())) < 0,
    decreases g.len(),
{
    let padded = g + zeros(width - g.len());
    assert(zeros(width)[0] == '0');
    assert(padded[0] == g[0]);
    if g[0] == '0' {
        assert(g.len() > 1);
        let rest = g.skip(1);
        assert(is_digits(rest)) by {
            assert forall|i: int| 0 <= i < rest.len() implies is_digit(#[trigger] rest[i]) by {
                assert(rest[i] == g[i + 1]);
            }
        }
        lemma_zeros_order(width - 1, rest);
        assert(zeros(width).skip(1) =~= zeros(width - 1));
        assert(padded.skip(1) =~= rest + zeros(width - 1 - rest.len()));
    } else {
        assert(is_digit(g[0]));
    }
}

/// Fractions that do not end in `0` are ordered as they are when padded with zeros.
proof fn lemma_fraction_order(f: Seq<char>, g: Seq<char>, width: int)
    requires
        f.len() <= width,
        g.len() <= width,
        f.len() > 0 ==> is_digits(f) && f.last() != '0',
        g.len() > 0 ==> is_digits(g) && g.last() != '0',
    ensures
        sign(text_order(f, g)) == sign(
            text_order(f + zeros(width - f.len()), g + zeros(width - g.len())),
        ),
    decreases f.len(),
{
    let (a, b) = (f + zeros(width - f.len()), g + zeros(width - g.len()));
    if f.len() == 0 {
        assert(a =~= zeros(width));
        if g.len() == 0 {
            assert(b =~= zeros(width));
            lemma_text_order(a, b);
        } else {
            lemma_zeros_order(width, g);
        }
    } else if g.len() == 0 {
        assert(b =~= zeros(width));
        lemma_zeros_order(width, f);
        lemma_text_order(a, b);
    } else {
        let (f_rest, g_rest) = (f.skip(1), g.skip(1));
        assert(f_rest.len() > 0 ==> is_digits(f_rest)) by {
            assert forall|i: int| 0 <= i < f_rest.len() implies is_digit(#[trigger] f_rest[i]) by {
                assert(f_rest[i] == f[i + 1]);
            }
        }
        assert(g_rest.len() > 0 ==> is_digits(g_rest)) by {
            assert forall|i: int| 0 <= i < g_rest.len() implies is_digit(#[trigger] g_rest[i]) by {
                assert(g_rest[i] == g[i + 1]);
            }
        }
        lemma_fraction_order(f_rest, g_rest, width - 1);
        assert(a[0] == f[0] && b[0] == g[0]);
        assert(a.skip(1) =~= f_rest + zeros(width - 1 - f_rest.len()));
        assert(b.skip(1) =~= g_rest + zeros(width - 1 - g_rest.len()));
    }
}

/// Two texts of one shape have one layout.
proof fn lemma_same_shape(x: Seq<char>, y: Seq<char>, shape: Seq<char>)
    requires
        has_shape(x, shape),
        has_shape(y, shape),
        forall|i: int| 0 <= i < shape.len() ==> !is_digit(#[trigger] shape[i]),
    ensures
        same_layout(x, y),
{
    assert forall|i: int| 0 <= i < x.len() implies if is_digit(#[trigger] x[i]) {
        is_digit(y[i])
    } else {
        x[i] == y[i]
    } by {
        assert(!is_digit(shape[i]));
    }
}

/// The digits of a text are digits.
proof fn lemma_digits_of(text: Seq<char>)
    ensures
        forall|i: int| 0 <= i < digits_of(text).len() ==> is_digit(#[trigger] digits_of(text)[i]),
    decreases text.len(),
{
    if text.len() > 0 {
        lemma_digits_of(text.skip(1));
        let rest = digits_of(text.skip(1));
        assert forall|i: int| 0 <= i < digits_of(text).len() implies is_digit(
            #[trigger] digits_of(text)[i],
        ) by {
            if is_digit(text[0]) && i > 0 {
                assert(digits_of(text)[i] == rest[i - 1]);
            }
        }
    }
}

/// A digit string is its digits.
proof fn lemma_digits_of_digits(text: Seq<char>)
    requires
        forall|i: int| 0 <= i < text.len() ==> is_digit(#[trigger] text[i]),
    ensures
        digits_of(text) == text,
    decreases text.len(),
{
    if text.len() > 0 {
        let rest = text.skip(1);
        assert forall|i: int| 0 <= i < rest.len() implies is_digit(#[trigger] rest[i]) by {
            assert(rest[i] == text[i + 1]);
        }
        lemma_digits_of_digits(rest);
        assert(seq![text[0]] + rest =~= text);
    } else {
        assert(text =~= Seq::empty());
    }
}

/// The digits of a text are those of its parts.
proof fn lemma_digits_of_sum(a: Seq<char>, b: Seq<char>)
    ensures
        digits_of(a + b) == digits_of(a) + digits_of(b),
    decreases a.len(),
{
    if a.len() == 0 {
        assert(a + b =~= b);
        assert(digits_of(a) + digits_of(b) =~= digits_of(b));
    } else {
        lemma_digits_of_sum(a.skip(1), b);
        assert((a + b).skip(1) =~= a.skip(1) + b);
        assert(digits_of(a + b) =~= digits_of(a) + digits_of(b));
    }
}

/// Dates in the canonical spelling are ordered as text as they are in time: the text
/// of an earlier date stands in front, and no date has two texts.
pub proof fn lemma_dates_sort(a: Seq<char>, b: Seq<char>)
    requires
        is_date_text(a),
        is_date_text(b),
    ensures
        text_order(a, b) < 0 <==> digits_value(digits_of(a)) < digits_value(digits_of(b)),
        a == b <==> digits_value(digits_of(a)) == digits_value(digits_of(b)),
{
    reveal_strlit("NNNN-NN-NN");
    lemma_same_shape(a, b, "NNNN-NN-NN"@);
    let none = Seq::<char>::empty();
    lemma_text_order(none, none);
    lemma_layout_order(a, b, none, none, none, none);
    assert(a + none =~= a && b + none =~= b);
    assert(digits_of(a) + none =~= digits_of(a) && digits_of(b) + none =~= digits_of(b));
    lemma_digits_of(a);
    lemma_digits_of(b);
    lemma_digits_order(digits_of(a), digits_of(b));
    lemma_text_order(a, b);
}

/// What stands behind the seconds of a timestamp, and its digits.
proof fn lemma_fraction(text: Seq<char>, width: int)
    requires
        is_timestamp_text(text),
        fraction_digits(text) <= width,
    ensures
        ({
            let tail = text.skip(19);
            let digits = if tail.len() > 0 {
                tail.skip(1)
            } else {
                Seq::empty()
            };
            &&& text == text.take(19) + tail
            &&& digits.len() == fraction_digits(text)
            &&& digits.len() > 0 ==> is_digits(digits) && digits.last() != '0'
            &&& digits_of(tail) == digits
            &&& digits_of(text) + zeros(width - fraction_digits(text)) == digits_of(text.take(19))
                + (digits + zeros(width - digits.len()))
        }),
{
    let tail = text.skip(19);
    assert(text =~= text.take(19) + tail);
    if tail.len() > 0 {
        let digits = tail.skip(1);
        assert(is_trimmed_fraction(tail));
        assert(digits.last() == tail.last());
        lemma_digits_of_digits(digits);
        assert(!is_digit(tail[0]));
    } else {
        assert(tail =~= Seq::empty());
    }
    lemma_digits_of_sum(text.take(19), tail);
    assert(digits_of(text) + zeros(width - fraction_digits(text)) =~= digits_of(text.take(19)) + (
    digits_of(tail) + zeros(width - fraction_digits(text))));
}

/// Timestamps in the canonical spelling are ordered as text as they are in time: the
/// text of an earlier moment stands in front, and no moment has two texts. A text
/// without a fraction stands in front of those that go on with one, which is right,
/// because a fraction that is there is not zero.
pub proof fn lemma_timestamps_sort(a: Seq<char>, b: Seq<char>, width: int)
    requires
        is_timestamp_text(a),
        is_timestamp_text(b),
        fraction_digits(a) <= width,
        fraction_digits(b) <= width,
    ensures
        text_order(a, b) < 0 <==> moment(a, width) < moment(b, width),
        a == b <==> moment(a, width) == moment(b, width),
{
    reveal_strlit("NNNN-NN-NN NN:NN:NN");
    let (x, y) = (a.take(19), b.take(19));
    let (r, s) = (a.skip(19), b.skip(19));
    lemma_same_shape(x, y, "NNNN-NN-NN NN:NN:NN"@);
    lemma_fraction(a, width);
    lemma_fraction(b, width);
    let none = Seq::<char>::empty();
    let f = if r.len() > 0 {
        r.skip(1)
    } else {
        none
    };
    let g = if s.len() > 0 {
        s.skip(1)
    } else {
        none
    };
    let (u, v) = (f + zeros(width - f.len()), g + zeros(width - g.len()));
    lemma_fraction_order(f, g, width);
    assert(sign(text_order(r, s)) == sign(text_order(f, g))) by {
        if r.len() == 0 && s.len() == 0 {
            assert(r =~= none && s =~= none);
        }
    }
    lemma_layout_order(x, y, r, s, u, v);
    let (a_digits, b_digits) = (digits_of(x) + u, digits_of(y) + v);
    lemma_digits_of(x);
    lemma_digits_of(y);
    assert forall|i: int| 0 <= i < a_digits.len() implies is_digit(#[trigger] a_digits[i]) by {
        if i >= digits_of(x).len() && i - digits_of(x).len() < f.len() {
            assert(a_digits[i] == f[i - digits_of(x).len()]);
        }
    }
    assert forall|i: int| 0 <= i < b_digits.len() implies is_digit(#[trigger] b_digits[i]) by {
        if i >= digits_of(y).len() && i - digits_of(y).len() < g.len() {
            assert(b_digits[i] == g[i - digits_of(y).len()]);
        }
    }
    lemma_digits_order(a_digits, b_digits);
    lemma_text_order(a, b);
}

/// Texts that go on alike behind an end that stands in front of all that the longer
/// one goes on with.
proof fn lemma_same_end(x: Seq<char>, y: Seq<char>, end: Seq<char>)
    requires
        end.len() > 0,
        x.len() < y.len() ==> end[0] < y[x.len() as int],
        y.len() < x.len() ==> end[0] < x[y.len() as int],
    ensures
        sign(text_order(x + end, y + end)) == sign(text_order(x, y)),
    decreases x.len(),
{
    if x.len() == 0 && y.len() == 0 {
        assert(x =~= y);
        lemma_text_order(x + end, y + end);
        lemma_text_order(x, y);
    } else if x.len() == 0 {
        assert((x + end)[0] == end[0] && (y + end)[0] == y[0]);
    } else if y.len() == 0 {
        assert((x + end)[0] == x[0] && (y + end)[0] == end[0]);
    } else {
        assert((x + end)[0] == x[0] && (y + end)[0] == y[0]);
        assert((x + end).skip(1) =~= x.skip(1) + end);
        assert((y + end).skip(1) =~= y.skip(1) + end);
        lemma_same_end(x.skip(1), y.skip(1), end);
    }
}

/// Timestamps in UTC in the canonical spelling are ordered as text as they are in
/// time: the end `+00` stands in front of a fraction and of each digit of one, so it
/// does not disturb the order.
pub proof fn lemma_utc_timestamps_sort(a: Seq<char>, b: Seq<char>, width: int)
    requires
        is_timestamptz_text(a),
        is_timestamptz_text(b),
        fraction_digits(a.take(a.len() - 3)) <= width,
        fraction_digits(b.take(b.len() - 3)) <= width,
    ensures
        text_order(a, b) < 0 <==> moment(a.take(a.len() - 3), width) < moment(
            b.take(b.len() - 3),
            width,
        ),
        a == b <==> moment(a.take(a.len() - 3), width) == moment(b.take(b.len() - 3), width),
{
    reveal_strlit("+00");
    let (x, y, end) = (a.take(a.len() - 3), b.take(b.len() - 3), "+00"@);
    assert(a =~= x + end);
    assert(b =~= y + end);
    lemma_timestamps_sort(x, y, width);
    if x.len() < y.len() {
        lemma_behind_seconds(y, x.len() as int);
    } else if y.len() < x.len() {
        lemma_behind_seconds(x, y.len() as int);
    }
    lemma_same_end(x, y, end);
    lemma_text_order(x, y);
    lemma_text_order(a, b);
}

/// Behind the seconds there is a point or a digit.
proof fn lemma_behind_seconds(text: Seq<char>, i: int)
    requires
        is_timestamp_text(text),
        19 <= i < text.len(),
    ensures
        '+' < text[i],
{
    let tail = text.skip(19);
    assert(text[i] == tail[i - 19]);
    if i > 19 {
        assert(tail.skip(1)[i - 20] == tail[i - 19]);
        assert(is_digit(tail.skip(1)[i - 20]));
    }
}

} // verus!
