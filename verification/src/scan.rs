//! Searching, cutting and reading text.

use vstd::prelude::*;
use crate::text::{chars_of, int_text, nat_text, string_of};

verus! {

// ---------------------------------------------------------------------------
// Occurrences
// ---------------------------------------------------------------------------

/// Whether `needle` stands in `text` at position `at`.
pub open spec fn occurs_at(text: Seq<char>, needle: Seq<char>, at: int) -> bool {
    &&& 0 <= at
    &&& at + needle.len() <= text.len()
    &&& text.subrange(at, at + needle.len()) == needle
}

/// Whether `needle` stands anywhere in `text`.
pub open spec fn contains_text(text: Seq<char>, needle: Seq<char>) -> bool {
    exists|at: int| occurs_at(text, needle, at)
}

/// `at` is where `needle` first stands in `text`.
pub open spec fn first_at(text: Seq<char>, needle: Seq<char>, at: int) -> bool {
    &&& occurs_at(text, needle, at)
    &&& forall|before: int| 0 <= before < at ==> !occurs_at(text, needle, before)
}

fn occurs_here(text: &Vec<char>, needle: &Vec<char>, at: usize) -> (found: bool)
    requires
        at + needle@.len() <= text@.len(),
    ensures
        found == occurs_at(text@, needle@, at as int),
{
    let length: usize = text.len();
    let mut k: usize = 0;
    while k < needle.len()
        invariant
            k <= needle@.len(),
            at + needle@.len() <= text@.len() == length,
            forall|j: int| 0 <= j < k ==> text@[at + j] == needle@[j],
        decreases needle@.len() - k,
    {
        if text[at + k] != needle[k] {
            assert(text@.subrange(at as int, at + needle@.len())[k as int] == text@[at + k]);
            return false;
        }
        k = k + 1;
    }
    assert(text@.subrange(at as int, at + needle@.len()) =~= needle@);
    true
}

/// Where `needle` first stands in `text` at or behind `from`.
pub fn find_from(text: &Vec<char>, needle: &Vec<char>, from: usize) -> (found: Option<usize>)
    ensures
        match found {
            Some(at) => {
                &&& from <= at
                &&& occurs_at(text@, needle@, at as int)
                &&& forall|before: int|
                    from <= before < at ==> !occurs_at(text@, needle@, before)
            },
            None => forall|at: int| from <= at ==> !occurs_at(text@, needle@, at),
        },
{
    if text.len() < needle.len() {
        return None;
    }
    let last: usize = text.len() - needle.len();
    let mut at: usize = from;
    while at <= last
        invariant
            from <= at,
            last == text@.len() - needle@.len(),
            forall|before: int| from <= before < at ==> !occurs_at(text@, needle@, before),
        decreases last + 1 - at,
    {
        if occurs_here(text, needle, at) {
            return Some(at);
        }
        if at == usize::MAX {
            assert(forall|later: int| from <= later ==> !occurs_at(text@, needle@, later));
            return None;
        }
        at = at + 1;
    }
    None
}

/// Whether `text` contains `needle`.
pub fn text_contains(text: &str, needle: &str) -> (found: bool)
    ensures
        found == contains_text(text@, needle@),
{
    let text_chars = chars_of(text);
    let needle_chars = chars_of(needle);
    match find_from(&text_chars, &needle_chars, 0) {
        Some(_) => true,
        None => false,
    }
}

/// Whether `text` starts with `prefix`.
pub fn text_starts_with(text: &str, prefix: &str) -> (found: bool)
    ensures
        found == prefix@.is_prefix_of(text@),
{
    let text_chars = chars_of(text);
    let prefix_chars = chars_of(prefix);
    if prefix_chars.len() > text_chars.len() {
        return false;
    }
    occurs_here(&text_chars, &prefix_chars, 0)
}

/// Whether `text` ends with `suffix`.
pub fn text_ends_with(text: &str, suffix: &str) -> (found: bool)
    ensures
        found == suffix@.is_suffix_of(text@),
{
    let text_chars = chars_of(text);
    let suffix_chars = chars_of(suffix);
    if suffix_chars.len() > text_chars.len() {
        return false;
    }
    occurs_here(&text_chars, &suffix_chars, text_chars.len() - suffix_chars.len())
}

/// The parts of `text` before and behind the first place where `mark` stands.
pub open spec fn cut_at_first(text: Seq<char>, mark: Seq<char>) -> Option<(Seq<char>, Seq<char>)> {
    if contains_text(text, mark) {
        let at = choose|at: int| first_at(text, mark, at);
        Some((text.take(at), text.skip(at + mark.len())))
    } else {
        None
    }
}

proof fn lemma_first_at_unique(text: Seq<char>, mark: Seq<char>, a: int, b: int)
    requires
        first_at(text, mark, a),
        first_at(text, mark, b),
    ensures
        a == b,
{
    if a < b {
        assert(!occurs_at(text, mark, a));
    } else if b < a {
        assert(!occurs_at(text, mark, b));
    }
}

/// Where `mark` stands there is a first place where it does.
proof fn lemma_first_exists(text: Seq<char>, mark: Seq<char>, at: int)
    requires
        occurs_at(text, mark, at),
    ensures
        exists|k: int| first_at(text, mark, k),
    decreases at,
{
    if exists|k: int| 0 <= k < at && #[trigger] occurs_at(text, mark, k) {
        let k = choose|k: int| 0 <= k < at && #[trigger] occurs_at(text, mark, k);
        lemma_first_exists(text, mark, k);
    } else {
        assert(first_at(text, mark, at));
    }
}

/// The parts of a cut and the mark between them make up the whole text.
pub proof fn lemma_cut_is_whole(text: Seq<char>, mark: Seq<char>)
    requires
        cut_at_first(text, mark) is Some,
    ensures
        cut_at_first(text, mark) matches Some((before, behind)) && before + mark + behind == text,
{
    let found = choose|at: int| occurs_at(text, mark, at);
    lemma_first_exists(text, mark, found);
    let at = choose|at: int| first_at(text, mark, at);
    assert(occurs_at(text, mark, at));
    assert(text.subrange(at, at + mark.len()) =~= mark);
    assert(text.take(at) + mark + text.skip(at + mark.len()) =~= text);
}

/// Cuts `text` at the first place where `mark` stands.
pub fn split_once(text: &str, mark: &str) -> (cut: Option<(String, String)>)
    ensures
        match cut {
            Some((before, behind)) => cut_at_first(text@, mark@) == Some((before@, behind@)),
            None => cut_at_first(text@, mark@) is None,
        },
{
    let text_chars = chars_of(text);
    let mark_chars = chars_of(mark);
    match find_from(&text_chars, &mark_chars, 0) {
        Some(at) => {
            let before = string_of(&text_chars, 0, at);
            let length: usize = text_chars.len();
            let behind = string_of(&text_chars, at + mark_chars.len(), length);
            proof {
                assert(first_at(text@, mark@, at as int));
                let chosen = choose|k: int| first_at(text@, mark@, k);
                lemma_first_at_unique(text@, mark@, at as int, chosen);
                assert(before@ =~= text@.take(at as int));
                assert(behind@ =~= text@.skip(at + mark@.len()));
            }
            Some((before, behind))
        },
        None => {
            assert(!contains_text(text@, mark@));
            None
        },
    }
}

// ---------------------------------------------------------------------------
// Segments
// ---------------------------------------------------------------------------

/// The part of `text` behind its last `mark`; all of it where there is none.
pub open spec fn behind_last(text: Seq<char>, mark: char) -> Seq<char>
    decreases text.len(),
{
    if text.len() == 0 || text.last() == mark {
        Seq::empty()
    } else {
        behind_last(text.drop_last(), mark).push(text.last())
    }
}

/// The part of `text` before its first `mark`; all of it where there is none.
pub open spec fn before_first(text: Seq<char>, mark: char) -> Seq<char>
    decreases text.len(),
{
    if text.len() == 0 || text[0] == mark {
        Seq::empty()
    } else {
        seq![text[0]] + before_first(text.skip(1), mark)
    }
}

/// The part of `text` behind its last `mark`.
pub fn last_segment(text: &str, mark: char) -> (out: String)
    ensures
        out@ == behind_last(text@, mark),
{
    let chars = chars_of(text);
    let mut start: usize = chars.len();
    assert(text@.take(start as int) =~= text@);
    assert(text@.skip(start as int) =~= Seq::empty());
    while start > 0 && chars[start - 1] != mark
        invariant
            start <= chars@.len(),
            chars@ == text@,
            behind_last(text@, mark) =~= behind_last(text@.take(start as int), mark) + text@.skip(
                start as int,
            ),
        decreases start,
    {
        assert(text@.take(start as int).drop_last() =~= text@.take(start - 1));
        assert(text@.skip(start - 1) =~= seq![text@[start - 1]] + text@.skip(start as int));
        start = start - 1;
    }
    assert(behind_last(text@.take(start as int), mark) =~= Seq::empty());
    let out = string_of(&chars, start, chars.len());
    assert(out@ =~= text@.skip(start as int));
    out
}

/// The part of `text` before its first `mark`.
pub fn first_segment(text: &str, mark: char) -> (out: String)
    ensures
        out@ == before_first(text@, mark),
{
    let chars = chars_of(text);
    let mut end: usize = 0;
    assert(text@.skip(0) =~= text@);
    while end < chars.len() && chars[end] != mark
        invariant
            end <= chars@.len(),
            chars@ == text@,
            before_first(text@, mark) =~= text@.take(end as int) + before_first(
                text@.skip(end as int),
                mark,
            ),
        decreases chars@.len() - end,
    {
        assert(text@.skip(end as int).skip(1) =~= text@.skip(end + 1));
        assert(text@.take(end + 1) =~= text@.take(end as int) + seq![text@[end as int]]);
        end = end + 1;
    }
    assert(before_first(text@.skip(end as int), mark) =~= Seq::empty());
    let out = string_of(&chars, 0, end);
    assert(out@ =~= text@.take(end as int));
    out
}

// ---------------------------------------------------------------------------
// Replacing
// ---------------------------------------------------------------------------

/// `text` from position `at` on, with every occurrence of `from` replaced by
/// `to`, taken from left to right without overlap.
pub open spec fn replaced_from(
    text: Seq<char>,
    from: Seq<char>,
    to: Seq<char>,
    at: int,
) -> Seq<char>
    decreases text.len() - at,
{
    if at < 0 || at >= text.len() || from.len() == 0 {
        text.skip(at)
    } else if occurs_at(text, from, at) {
        to + replaced_from(text, from, to, at + from.len())
    } else {
        seq![text[at]] + replaced_from(text, from, to, at + 1)
    }
}

/// `text` with every occurrence of the non-empty `from` replaced by `to`.
pub open spec fn replaced(text: Seq<char>, from: Seq<char>, to: Seq<char>) -> Seq<char> {
    replaced_from(text, from, to, 0)
}

/// Replaces every occurrence of `from` in `text` by `to`.
pub fn replace_text(text: &str, from: &str, to: &str) -> (out: String)
    requires
        from@.len() > 0,
    ensures
        out@ == replaced(text@, from@, to@),
{
    let text_chars = chars_of(text);
    let from_chars = chars_of(from);
    let mut out = String::new();
    let mut at: usize = 0;
    while at < text_chars.len()
        invariant
            at <= text_chars@.len(),
            text_chars@ == text@,
            from_chars@ == from@,
            from@.len() > 0,
            out@ + replaced_from(text@, from@, to@, at as int) =~= replaced(text@, from@, to@),
        decreases text_chars@.len() - at,
    {
        let ghost before = out@;
        if from_chars.len() <= text_chars.len() - at && occurs_here(&text_chars, &from_chars, at) {
            out.append(to);
            at = at + from_chars.len();
            assert(out@ + replaced_from(text@, from@, to@, at as int) =~= before + (to@
                + replaced_from(text@, from@, to@, at as int)));
        } else {
            assert(!occurs_at(text@, from@, at as int));
            out.push(text_chars[at]);
            at = at + 1;
            assert(out@ + replaced_from(text@, from@, to@, at as int) =~= before + (seq![text@[at
                - 1]] + replaced_from(text@, from@, to@, at as int)));
        }
    }
    assert(replaced_from(text@, from@, to@, at as int) =~= Seq::empty());
    out
}

// ---------------------------------------------------------------------------
// White space
// ---------------------------------------------------------------------------

/// Whether `c` has the Unicode property `White_Space`.
pub open spec fn is_space(c: char) -> bool {
    let code = c as u32;
    ||| 0x09 <= code <= 0x0d
    ||| code == 0x20
    ||| code == 0x85
    ||| code == 0xa0
    ||| code == 0x1680
    ||| 0x2000 <= code <= 0x200a
    ||| code == 0x2028
    ||| code == 0x2029
    ||| code == 0x202f
    ||| code == 0x205f
    ||| code == 0x3000
}

fn char_is_space(c: char) -> (space: bool)
    ensures
        space == is_space(c),
{
    let code: u32 = c as u32;
    (0x09 <= code && code <= 0x0d) || code == 0x20 || code == 0x85 || code == 0xa0 || code
        == 0x1680 || (0x2000 <= code && code <= 0x200a) || code == 0x2028 || code == 0x2029 || code
        == 0x202f || code == 0x205f || code == 0x3000
}

/// `text` without its leading white space.
pub open spec fn trimmed_start(text: Seq<char>) -> Seq<char>
    decreases text.len(),
{
    if text.len() > 0 && is_space(text[0]) {
        trimmed_start(text.skip(1))
    } else {
        text
    }
}

/// `text` without its trailing white space.
pub open spec fn trimmed_end(text: Seq<char>) -> Seq<char>
    decreases text.len(),
{
    if text.len() > 0 && is_space(text.last()) {
        trimmed_end(text.drop_last())
    } else {
        text
    }
}

/// `text` without white space at either end.
pub open spec fn trimmed(text: Seq<char>) -> Seq<char> {
    trimmed_end(trimmed_start(text))
}

/// `text` without its trailing white space.
pub fn trim_end(text: &str) -> (out: String)
    ensures
        out@ == trimmed_end(text@),
{
    let chars = chars_of(text);
    let mut end: usize = chars.len();
    assert(text@.take(end as int) =~= text@);
    while end > 0 && char_is_space(chars[end - 1])
        invariant
            end <= chars@.len(),
            chars@ == text@,
            trimmed_end(text@) == trimmed_end(text@.take(end as int)),
        decreases end,
    {
        assert(text@.take(end as int).drop_last() =~= text@.take(end - 1));
        end = end - 1;
    }
    assert(text@.take(end as int) =~= chars@.subrange(0, end as int));
    string_of(&chars, 0, end)
}

/// `text` without white space at either end.
pub fn trim(text: &str) -> (out: String)
    ensures
        out@ == trimmed(text@),
{
    let chars = chars_of(text);
    let mut start: usize = 0;
    assert(text@.skip(0) =~= text@);
    while start < chars.len() && char_is_space(chars[start])
        invariant
            start <= chars@.len(),
            chars@ == text@,
            trimmed_start(text@) == trimmed_start(text@.skip(start as int)),
        decreases chars@.len() - start,
    {
        assert(text@.skip(start as int).skip(1) =~= text@.skip(start + 1));
        start = start + 1;
    }
    assert(trimmed_start(text@) == text@.skip(start as int));
    let rest = string_of(&chars, start, chars.len());
    assert(rest@ =~= text@.skip(start as int));
    trim_end(rest.as_str())
}

/// Whether `text` holds nothing but white space.
pub open spec fn is_blank(text: Seq<char>) -> bool {
    forall|i: int| 0 <= i < text.len() ==> is_space(#[trigger] text[i])
}

/// Whether `text` holds nothing but white space.
pub fn text_is_blank(text: &str) -> (blank: bool)
    ensures
        blank == is_blank(text@),
{
    let chars = chars_of(text);
    let mut i: usize = 0;
    while i < chars.len()
        invariant
            i <= chars@.len(),
            chars@ == text@,
            forall|j: int| 0 <= j < i ==> is_space(#[trigger] text@[j]),
        decreases chars@.len() - i,
    {
        if !char_is_space(chars[i]) {
            return false;
        }
        i = i + 1;
    }
    true
}

/// `text` without its leading `c`s.
pub open spec fn without_leading(text: Seq<char>, c: char) -> Seq<char>
    decreases text.len(),
{
    if text.len() > 0 && text[0] == c {
        without_leading(text.skip(1), c)
    } else {
        text
    }
}

/// `text` without its leading `c`s.
pub fn strip_leading(text: &str, c: char) -> (out: String)
    ensures
        out@ == without_leading(text@, c),
{
    let chars = chars_of(text);
    let mut start: usize = 0;
    assert(text@.skip(0) =~= text@);
    while start < chars.len() && chars[start] == c
        invariant
            start <= chars@.len(),
            chars@ == text@,
            without_leading(text@, c) == without_leading(text@.skip(start as int), c),
        decreases chars@.len() - start,
    {
        assert(text@.skip(start as int).skip(1) =~= text@.skip(start + 1));
        start = start + 1;
    }
    let out = string_of(&chars, start, chars.len());
    assert(out@ =~= text@.skip(start as int));
    out
}

// ---------------------------------------------------------------------------
// ASCII case
// ---------------------------------------------------------------------------

/// `c` with an ASCII capital turned into its small letter.
pub open spec fn ascii_lower(c: char) -> char {
    if 'A' <= c <= 'Z' {
        (c as u32 + 32) as char
    } else {
        c
    }
}

/// `text` with every ASCII capital turned into its small letter.
pub open spec fn ascii_lowered(text: Seq<char>) -> Seq<char> {
    text.map_values(|c: char| ascii_lower(c))
}

/// `text` with every ASCII capital turned into its small letter.
pub fn lower_ascii(text: &str) -> (out: String)
    ensures
        out@ == ascii_lowered(text@),
{
    let mut out = String::new();
    for c in it: text.chars()
        invariant
            it.seq() == text@,
            out@ =~= ascii_lowered(text@.take(it.index() as int)),
    {
        if 'A' <= c && c <= 'Z' {
            out.push((c as u8 + 32) as char);
        } else {
            out.push(c);
        }
    }
    assert(text@.take(text@.len() as int) =~= text@);
    out
}

// ---------------------------------------------------------------------------
// Reading integers
// ---------------------------------------------------------------------------

/// Whether `c` is one of `0` to `9`.
pub open spec fn is_digit(c: char) -> bool {
    '0' <= c <= '9'
}

/// Whether `text` is one or more decimal digits.
pub open spec fn is_digits(text: Seq<char>) -> bool {
    &&& text.len() > 0
    &&& forall|i: int| 0 <= i < text.len() ==> is_digit(#[trigger] text[i])
}

/// The number that decimal digits spell.
pub open spec fn digits_value(text: Seq<char>) -> int
    decreases text.len(),
{
    if text.len() == 0 {
        0
    } else {
        10 * digits_value(text.drop_last()) + (text.last() as int - '0' as int)
    }
}

/// The integer `text` spells: digits behind an optional sign.
pub open spec fn signed_value(text: Seq<char>) -> Option<int> {
    if text.len() > 0 && text[0] == '-' {
        if is_digits(text.skip(1)) {
            Some(-digits_value(text.skip(1)))
        } else {
            None
        }
    } else {
        unsigned_value(text)
    }
}

/// The natural number `text` spells: digits behind an optional `+`.
pub open spec fn unsigned_value(text: Seq<char>) -> Option<int> {
    if text.len() > 0 && text[0] == '+' {
        if is_digits(text.skip(1)) {
            Some(digits_value(text.skip(1)))
        } else {
            None
        }
    } else if is_digits(text) {
        Some(digits_value(text))
    } else {
        None
    }
}

/// The `i64` that `text` spells, where it spells one that fits.
pub open spec fn i64_value(text: Seq<char>) -> Option<i64> {
    match signed_value(text) {
        Some(value) if i64::MIN <= value <= i64::MAX => Some(value as i64),
        _ => None,
    }
}

/// The `u64` that `text` spells, where it spells one that fits.
pub open spec fn u64_value(text: Seq<char>) -> Option<u64> {
    match unsigned_value(text) {
        Some(value) if value <= u64::MAX => Some(value as u64),
        _ => None,
    }
}

proof fn lemma_digits_value_grows(text: Seq<char>, at: int)
    requires
        forall|i: int| 0 <= i < text.len() ==> is_digit(#[trigger] text[i]),
        0 <= at <= text.len(),
    ensures
        0 <= digits_value(text.take(at)) <= digits_value(text),
    decreases text.len(),
{
    if at == text.len() {
        assert(text.take(at) =~= text);
        if text.len() > 0 {
            lemma_digits_value_grows(text.drop_last(), text.len() - 1);
            assert(text.drop_last().take(text.len() - 1) =~= text.drop_last());
            assert(is_digit(text.last()));
        }
    } else {
        lemma_digits_value_grows(text.drop_last(), at);
        assert(text.drop_last().take(at) =~= text.take(at));
        assert(is_digit(text.last()));
    }
}

/// The value of the digits `chars[from..]`, if they are digits and it fits.
fn read_digits(chars: &Vec<char>, from: usize) -> (value: Option<u64>)
    requires
        from <= chars@.len(),
    ensures
        match value {
            Some(value) => is_digits(chars@.skip(from as int)) && digits_value(
                chars@.skip(from as int),
            ) == value,
            None => is_digits(chars@.skip(from as int)) ==> digits_value(chars@.skip(from as int))
                > u64::MAX,
        },
{
    let ghost text = chars@.skip(from as int);
    if from == chars.len() {
        return None;
    }
    let mut value: u64 = 0;
    let mut i: usize = from;
    assert(text.take(0) =~= Seq::empty());
    while i < chars.len()
        invariant
            from <= i <= chars@.len(),
            text == chars@.skip(from as int),
            forall|j: int| 0 <= j < i - from ==> is_digit(#[trigger] text[j]),
            value == digits_value(text.take(i - from)),
        decreases chars@.len() - i,
    {
        let c: char = chars[i];
        assert(text[i - from] == c);
        if !('0' <= c && c <= '9') {
            return None;
        }
        let digit: u64 = (c as u32 - 48) as u64;
        assert(text.take(i - from + 1).drop_last() =~= text.take(i - from));
        proof {
            if is_digits(text) {
                lemma_digits_value_grows(text, i - from + 1);
            }
        }
        if value > (u64::MAX - digit) / 10 {
            return None;
        }
        value = value * 10 + digit;
        i = i + 1;
    }
    assert(text.take(text.len() as int) =~= text);
    Some(value)
}

/// Reads a `u64` from the whole of `text`.
pub fn parse_u64(text: &str) -> (value: Option<u64>)
    ensures
        value == u64_value(text@),
{
    let chars = chars_of(text);
    assert(text@.skip(0) =~= text@);
    let from: usize = if chars.len() > 0 && chars[0] == '+' {
        1
    } else {
        0
    };
    let value = read_digits(&chars, from);
    proof {
        if is_digits(text@.skip(from as int)) {
            lemma_digits_value_grows(text@.skip(from as int), 0);
        }
    }
    value
}

/// Reads an `i64` from the whole of `text`.
pub fn parse_i64(text: &str) -> (value: Option<i64>)
    ensures
        value == i64_value(text@),
{
    let chars = chars_of(text);
    assert(text@.skip(0) =~= text@);
    if chars.len() > 0 && chars[0] == '-' {
        match read_digits(&chars, 1) {
            Some(magnitude) => {
                if magnitude <= 0x8000_0000_0000_0000 {
                    if magnitude == 0x8000_0000_0000_0000 {
                        Some(i64::MIN)
                    } else {
                        Some(-(magnitude as i64))
                    }
                } else {
                    None
                }
            },
            None => None,
        }
    } else {
        let from: usize = if chars.len() > 0 && chars[0] == '+' {
            1
        } else {
            0
        };
        proof {
            if is_digits(text@.skip(from as int)) {
                lemma_digits_value_grows(text@.skip(from as int), 0);
            }
        }
        match read_digits(&chars, from) {
            Some(value) => if value <= 0x7fff_ffff_ffff_ffff {
                Some(value as i64)
            } else {
                None
            },
            None => None,
        }
    }
}

// ---------------------------------------------------------------------------
// Shapes
// ---------------------------------------------------------------------------

/// Whether `text` matches `shape` character for character, where `N` stands for
/// any decimal digit and every other character stands for itself.
pub open spec fn has_shape(text: Seq<char>, shape: Seq<char>) -> bool {
    &&& text.len() == shape.len()
    &&& forall|i: int|
        0 <= i < shape.len() ==> if shape[i] == 'N' {
            is_digit(#[trigger] text[i])
        } else {
            text[i] == shape[i]
        }
}

/// Whether `text` matches `shape`: see [`has_shape`].
pub fn matches_shape(text: &str, shape: &str) -> (matched: bool)
    ensures
        matched == has_shape(text@, shape@),
{
    let text_chars = chars_of(text);
    let shape_chars = chars_of(shape);
    if text_chars.len() != shape_chars.len() {
        return false;
    }
    let mut i: usize = 0;
    while i < shape_chars.len()
        invariant
            i <= shape_chars@.len(),
            text_chars@ == text@,
            shape_chars@ == shape@,
            text@.len() == shape@.len(),
            forall|j: int|
                0 <= j < i ==> if shape@[j] == 'N' {
                    is_digit(#[trigger] text@[j])
                } else {
                    text@[j] == shape@[j]
                },
        decreases shape_chars@.len() - i,
    {
        let actual: char = text_chars[i];
        let expected: char = shape_chars[i];
        assert(text@[i as int] == actual);
        if expected == 'N' {
            if !('0' <= actual && actual <= '9') {
                return false;
            }
        } else if actual != expected {
            return false;
        }
        i = i + 1;
    }
    true
}

// ---------------------------------------------------------------------------
// Reading back what was written
// ---------------------------------------------------------------------------

/// The digits of a natural number spell it, and there are no more of them than of any
/// power of ten above it.
pub proof fn lemma_digits_of_nat(n: nat)
    ensures
        is_digits(nat_text(n)),
        digits_value(nat_text(n)) == n,
        nat_text(n)[0] != '-',
        nat_text(n)[0] != '+',
        n > 0 ==> nat_text(n)[0] != '0',
        nat_text(n).len() <= 1 || vstd::arithmetic::power::pow(10, (nat_text(n).len() - 1) as nat)
            <= n,
    decreases n,
{
    let text = nat_text(n);
    if n < 10 {
        let digit = crate::text::digit_char(n);
        assert(text =~= seq![digit]);
        assert(text.drop_last() =~= Seq::empty());
        assert(digits_value(text.drop_last()) == 0);
        assert(text.last() as int == 48 + n);
    } else {
        lemma_digits_of_nat(n / 10);
        let front = nat_text(n / 10);
        assert(text.drop_last() =~= front);
        assert(text.last() as int == 48 + n % 10);
        assert(text[0] == front[0]);
        vstd::arithmetic::power::lemma_pow1(10);
        if front.len() > 1 {
            let smaller = vstd::arithmetic::power::pow(10, (front.len() - 1) as nat);
            reveal(vstd::arithmetic::power::pow);
            assert(vstd::arithmetic::power::pow(10, front.len()) == 10 * smaller);
            assert(10 * smaller <= n) by (nonlinear_arith)
                requires
                    smaller <= n / 10,
            ;
        }
    }
}

/// A number that was written in decimal is read as that number.
pub proof fn lemma_number_is_read_back(n: int)
    ensures
        signed_value(int_text(n)) == Some(n),
        n >= 0 ==> unsigned_value(int_text(n)) == Some(n),
        n < 0 ==> int_text(n)[0] == '-' && unsigned_value(int_text(n)) is None,
        i64::MIN <= n <= i64::MAX ==> i64_value(int_text(n)) == Some(n as i64),
        0 <= n <= u64::MAX ==> u64_value(int_text(n)) == Some(n as u64),
        n < 0 || n > u64::MAX ==> u64_value(int_text(n)) is None,
{
    let text = int_text(n);
    if n < 0 {
        lemma_digits_of_nat((-n) as nat);
        assert(text.skip(1) =~= nat_text((-n) as nat));
        assert(!is_digit(text[0]));
    } else {
        lemma_digits_of_nat(n as nat);
    }
}

// ---------------------------------------------------------------------------
// What the parts of a text make up
// ---------------------------------------------------------------------------

/// A text holds another where it can be cut in three, with the other in the middle.
pub proof fn lemma_occurrences(text: Seq<char>, needle: Seq<char>, at: int)
    ensures
        occurs_at(text, needle, at) <==> exists|front: Seq<char>, back: Seq<char>|
            front.len() == at && #[trigger] (front + needle + back) == text,
        contains_text(text, needle) <==> exists|front: Seq<char>, back: Seq<char>| #[trigger]
            (front + needle + back) == text,
{
    assert forall|place: int| occurs_at(text, needle, place) implies #[trigger] text.take(place)
        + needle + text.skip(place + needle.len()) == text by {
        let whole = text.take(place) + needle + text.skip(place + needle.len());
        assert forall|i: int| 0 <= i < text.len() implies whole[i] == text[i] by {
            if place <= i < place + needle.len() {
                assert(text.subrange(place, place + needle.len())[i - place] == text[i]);
            }
        }
        assert(whole =~= text);
    }
    assert forall|front: Seq<char>, back: Seq<char>| #[trigger] (front + needle + back)
        == text implies occurs_at(text, needle, front.len() as int) by {
        assert(text.subrange(front.len() as int, (front.len() + needle.len()) as int) =~= needle);
    }
    if occurs_at(text, needle, at) {
        assert(text.take(at) + needle + text.skip(at + needle.len()) == text);
    }
    if contains_text(text, needle) {
        let place = choose|place: int| occurs_at(text, needle, place);
        assert(text.take(place) + needle + text.skip(place + needle.len()) == text);
    }
}

/// The last segment is the end of the text, without the mark, and what is in front of it
/// ends with the mark or is empty.
pub proof fn lemma_last_segment(text: Seq<char>, mark: char)
    ensures
        behind_last(text, mark).is_suffix_of(text),
        !behind_last(text, mark).contains(mark),
        behind_last(text, mark).len() == text.len() || text[text.len() - behind_last(
            text,
            mark,
        ).len() - 1] == mark,
    decreases text.len(),
{
    if !(text.len() == 0 || text.last() == mark) {
        let rest = text.drop_last();
        lemma_last_segment(rest, mark);
        let end = behind_last(rest, mark);
        assert(end.push(text.last()) =~= text.subrange(
            text.len() - end.len() - 1,
            text.len() as int,
        )) by {
            assert(end =~= rest.subrange(rest.len() - end.len(), rest.len() as int));
            assert forall|i: int| 0 <= i < end.len() implies end[i] == text[text.len() - end.len() - 1
                + i] by {
                assert(rest.subrange(rest.len() - end.len(), rest.len() as int)[i] == rest[rest.len()
                    - end.len() + i]);
            }
        }
        assert forall|i: int| 0 <= i < end.len() + 1 implies end.push(text.last())[i] != mark by {
            if i < end.len() {
                assert(end.contains(end[i]));
            }
        }
    } else {
        assert(Seq::<char>::empty() =~= text.subrange(text.len() as int, text.len() as int));
    }
}

/// The first segment is the start of the text, without the mark, and what follows starts
/// with the mark or is empty.
pub proof fn lemma_first_segment(text: Seq<char>, mark: char)
    ensures
        before_first(text, mark).is_prefix_of(text),
        !before_first(text, mark).contains(mark),
        before_first(text, mark).len() == text.len() || text[before_first(text, mark).len() as int]
            == mark,
    decreases text.len(),
{
    if !(text.len() == 0 || text[0] == mark) {
        let rest = text.skip(1);
        lemma_first_segment(rest, mark);
        let start = before_first(rest, mark);
        let whole = seq![text[0]] + start;
        assert(whole =~= text.subrange(0, whole.len() as int)) by {
            assert forall|i: int| 0 <= i < start.len() implies start[i] == text[i + 1] by {
                assert(rest.subrange(0, start.len() as int)[i] == rest[i]);
            }
        }
        assert forall|i: int| 0 <= i < whole.len() implies whole[i] != mark by {
            if i > 0 {
                assert(start.contains(start[i - 1]));
            }
        }
    }
}

proof fn lemma_occurs_in_rest(text: Seq<char>, needle: Seq<char>, from: int, at: int)
    requires
        0 <= from <= text.len(),
        0 <= at,
    ensures
        occurs_at(text.skip(from), needle, at) <==> occurs_at(text, needle, from + at),
{
    if at + from + needle.len() <= text.len() {
        assert(text.skip(from).subrange(at, at + needle.len()) =~= text.subrange(
            from + at,
            from + at + needle.len(),
        ));
    }
}

proof fn lemma_replaced_rest(text: Seq<char>, from: Seq<char>, to: Seq<char>, start: int, at: int)
    requires
        0 <= start,
        0 <= at,
        start + at <= text.len(),
    ensures
        replaced_from(text.skip(start), from, to, at) == replaced_from(text, from, to, start + at),
    decreases text.len() - start - at,
{
    let rest = text.skip(start);
    assert(rest.skip(at) =~= text.skip(start + at));
    if at < rest.len() && from.len() > 0 {
        lemma_occurs_in_rest(text, from, start, at);
        if occurs_at(rest, from, at) {
            lemma_replaced_rest(text, from, to, start, at + from.len() as int);
        } else {
            lemma_replaced_rest(text, from, to, start, at + 1);
        }
    }
}

proof fn lemma_replaced_until(text: Seq<char>, from: Seq<char>, to: Seq<char>, at: int, end: int)
    requires
        0 <= at <= end <= text.len(),
        from.len() > 0,
        forall|k: int| at <= k < end ==> !#[trigger] occurs_at(text, from, k),
    ensures
        replaced_from(text, from, to, at) == text.subrange(at, end) + replaced_from(
            text,
            from,
            to,
            end,
        ),
    decreases end - at,
{
    if at < end {
        assert(!occurs_at(text, from, at));
        lemma_replaced_until(text, from, to, at + 1, end);
        assert(seq![text[at]] + text.subrange(at + 1, end) =~= text.subrange(at, end));
        assert(seq![text[at]] + (text.subrange(at + 1, end) + replaced_from(text, from, to, end))
            =~= text.subrange(at, end) + replaced_from(text, from, to, end));
    } else {
        assert(text.subrange(at, end) + replaced_from(text, from, to, end) =~= replaced_from(
            text,
            from,
            to,
            end,
        ));
    }
}

/// A text without `from` is left as it is. In any other the first `from` gives way to
/// `to`, what stands in front of it is left, and what follows is treated likewise.
pub proof fn lemma_replacement(text: Seq<char>, from: Seq<char>, to: Seq<char>, at: int)
    requires
        from.len() > 0,
    ensures
        (forall|k: int| !#[trigger] occurs_at(text, from, k)) ==> replaced(text, from, to) == text,
        occurs_at(text, from, at) && (forall|k: int|
            0 <= k < at ==> !#[trigger] occurs_at(text, from, k)) ==> replaced(text, from, to)
            == text.take(at) + to + replaced(text.skip(at + from.len()), from, to),
{
    if forall|k: int| !#[trigger] occurs_at(text, from, k) {
        lemma_replaced_until(text, from, to, 0, text.len() as int);
        assert(text.subrange(0, text.len() as int) + replaced_from(
            text,
            from,
            to,
            text.len() as int,
        ) =~= text);
    }
    if occurs_at(text, from, at) && (forall|k: int|
        0 <= k < at ==> !#[trigger] occurs_at(text, from, k)) {
        lemma_replaced_until(text, from, to, 0, at);
        lemma_replaced_rest(text, from, to, at + from.len() as int, 0);
        let rest = replaced(text.skip(at + from.len()), from, to);
        assert(replaced_from(text, from, to, at) == to + rest);
        assert(text.subrange(0, at) =~= text.take(at));
        assert(text.take(at) + (to + rest) =~= text.take(at) + to + rest);
    }
}

/// The white space of Unicode.
pub proof fn lemma_white_space(c: char)
    ensures
        is_space(c) <==> set![
            9u32,
            10u32,
            11u32,
            12u32,
            13u32,
            32u32,
            133u32,
            160u32,
            5760u32,
            8192u32,
            8193u32,
            8194u32,
            8195u32,
            8196u32,
            8197u32,
            8198u32,
            8199u32,
            8200u32,
            8201u32,
            8202u32,
            8232u32,
            8233u32,
            8239u32,
            8287u32,
            12288u32,
        ].contains(c as u32),
{
}

proof fn lemma_trimmed_end(text: Seq<char>)
    ensures
        trimmed_end(text).is_prefix_of(text),
        trimmed_end(text).len() > 0 ==> !is_space(trimmed_end(text).last()),
        forall|i: int| trimmed_end(text).len() <= i < text.len() ==> is_space(#[trigger] text[i]),
    decreases text.len(),
{
    if text.len() > 0 && is_space(text.last()) {
        let rest = text.drop_last();
        lemma_trimmed_end(rest);
        let kept = trimmed_end(rest);
        assert(kept =~= text.subrange(0, kept.len() as int)) by {
            assert(kept =~= rest.subrange(0, kept.len() as int));
        }
        assert forall|i: int| kept.len() <= i < text.len() implies is_space(#[trigger] text[i]) by {
            if i < rest.len() {
                assert(rest[i] == text[i]);
            }
        }
    } else {
        assert(text =~= text.subrange(0, text.len() as int));
    }
}

proof fn lemma_trimmed_start(text: Seq<char>) -> (cut: int)
    ensures
        0 <= cut <= text.len(),
        trimmed_start(text) == text.skip(cut),
        cut < text.len() ==> !is_space(text[cut]),
        forall|i: int| 0 <= i < cut ==> is_space(#[trigger] text[i]),
    decreases text.len(),
{
    if text.len() > 0 && is_space(text[0]) {
        let rest = text.skip(1);
        let cut = lemma_trimmed_start(rest);
        assert(rest.skip(cut) =~= text.skip(cut + 1));
        assert forall|i: int| 0 <= i < cut + 1 implies is_space(#[trigger] text[i]) by {
            if i > 0 {
                assert(rest[i - 1] == text[i]);
            }
        }
        cut + 1
    } else {
        assert(text.skip(0) =~= text);
        0
    }
}

/// Trimming takes white space off, and nothing else, until none is left at either end.
/// Nothing is left if, and only if, the text is blank.
pub proof fn lemma_trimming(text: Seq<char>)
    ensures
        exists|a: int, b: int|
            0 <= a <= b <= text.len() && trimmed(text) == #[trigger] text.subrange(a, b) && (forall|
                i: int,
            |
                0 <= i < a || b <= i < text.len() ==> is_space(#[trigger] text[i])),
        trimmed(text).len() > 0 ==> !is_space(trimmed(text)[0]) && !is_space(trimmed(text).last()),
        trimmed_end(text).len() > 0 ==> !is_space(trimmed_end(text).last()),
        trimmed_end(text).is_prefix_of(text),
        forall|i: int| trimmed_end(text).len() <= i < text.len() ==> is_space(#[trigger] text[i]),
        is_blank(text) <==> trimmed(text).len() == 0,
{
    lemma_trimmed_end(text);
    let a = lemma_trimmed_start(text);
    let rest = trimmed_start(text);
    lemma_trimmed_end(rest);
    let out = trimmed(text);
    let b = a + out.len();
    assert(out =~= text.subrange(a, b)) by {
        assert(out =~= rest.subrange(0, out.len() as int));
    }
    assert forall|i: int| 0 <= i < a || b <= i < text.len() implies is_space(#[trigger] text[i]) by {
        if i >= b {
            assert(rest[i - a] == text[i]);
        }
    }
    if out.len() > 0 {
        assert(out[0] == text[a]);
        assert(!is_space(text[a]));
    }
}

/// Leading marks are taken off, all of them and nothing else.
pub proof fn lemma_leading(text: Seq<char>, c: char)
    ensures
        without_leading(text, c).len() <= text.len(),
        without_leading(text, c) == text.skip(text.len() - without_leading(text, c).len()),
        forall|i: int|
            0 <= i < text.len() - without_leading(text, c).len() ==> #[trigger] text[i] == c,
        without_leading(text, c).len() > 0 ==> without_leading(text, c)[0] != c,
    decreases text.len(),
{
    if text.len() > 0 && text[0] == c {
        let rest = text.skip(1);
        lemma_leading(rest, c);
        let n = rest.len() - without_leading(rest, c).len();
        assert(rest.skip(n) =~= text.skip(n + 1));
        assert forall|i: int| 0 <= i < n + 1 implies #[trigger] text[i] == c by {
            if i > 0 {
                assert(rest[i - 1] == text[i]);
            }
        }
    } else {
        assert(text.skip(0) =~= text);
    }
}

/// Letters of ASCII become small ones, each the letter that it is, and all else is left.
pub proof fn lemma_lowered(text: Seq<char>, i: int)
    requires
        0 <= i < text.len(),
    ensures
        ascii_lowered(text).len() == text.len(),
        65 <= text[i] as int <= 90 ==> ascii_lowered(text)[i] as int == text[i] as int + 97 - 65,
        !(65 <= text[i] as int <= 90) ==> ascii_lowered(text)[i] == text[i],
{
}

/// Numbers are read where they are spelled in digits, with a sign at most in front, and
/// fit; leading zeros do not matter. Nothing else is a number.
pub proof fn lemma_numbers_are_digits(text: Seq<char>)
    ensures
        i64_value(text) is Some ==> text.len() > 0 && forall|i: int|
            0 <= i < text.len() ==> 48 <= #[trigger] text[i] as int <= 57 || (i == 0 && text.len() > 1
                && (text[0] == '-' || text[0] == '+')),
        u64_value(text) is Some ==> text.len() > 0 && forall|i: int|
            0 <= i < text.len() ==> 48 <= #[trigger] text[i] as int <= 57 || (i == 0 && text.len() > 1
                && text[0] == '+'),
{
    let rest = text.skip(1);
    if i64_value(text) is Some {
        assert forall|i: int| 0 <= i < text.len() implies 48 <= #[trigger] text[i] as int <= 57 || (i
            == 0 && text.len() > 1 && (text[0] == '-' || text[0] == '+')) by {
            if text[0] == '-' || text[0] == '+' {
                if i > 0 {
                    assert(is_digit(rest[i - 1]));
                }
            } else {
                assert(is_digit(text[i]));
            }
        }
    }
    if u64_value(text) is Some {
        assert forall|i: int| 0 <= i < text.len() implies 48 <= #[trigger] text[i] as int <= 57 || (i
            == 0 && text.len() > 1 && text[0] == '+') by {
            if text[0] == '+' {
                if i > 0 {
                    assert(is_digit(rest[i - 1]));
                }
            } else {
                assert(is_digit(text[i]));
            }
        }
    }
}

/// A text is cut wherever it holds the mark, and at the first place where it does.
pub proof fn lemma_cut_is_first(text: Seq<char>, mark: Seq<char>, front: Seq<char>, back: Seq<char>)
    requires
        front + mark + back == text,
    ensures
        cut_at_first(text, mark) matches Some((before, behind)) && before.len() <= front.len(),
{
    lemma_occurrences(text, mark, front.len() as int);
    assert(occurs_at(text, mark, front.len() as int)) by {
        assert(front.len() == front.len() as int && (front + mark + back) == text);
    }
    lemma_first_exists(text, mark, front.len() as int);
    let at = choose|at: int| first_at(text, mark, at);
    assert(first_at(text, mark, at));
    if front.len() < at {
        assert(!occurs_at(text, mark, front.len() as int));
    }
}

} // verus!
