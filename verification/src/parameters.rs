//! The parameters of a query: what counts as one, and when a piece of SQL brings none
//! along.

use vstd::prelude::*;

use crate::metadata::RenderedColumnFilter;
use crate::scan::is_digit;
use crate::text::{digit_char, int_text, joined, nat_text, views};

verus! {

// ---------------------------------------------------------------------------
// Placeholders
// ---------------------------------------------------------------------------

/// Whether a string literal that starts in `text` is still open at its end.
pub open spec fn is_open(text: Seq<char>) -> bool
    decreases text.len(),
{
    if text.len() == 0 {
        false
    } else if text.last() == '\'' {
        !is_open(text.drop_last())
    } else {
        is_open(text.drop_last())
    }
}

/// How many `?` stand in `text` outside of string literals: how many parameters it
/// takes.
pub open spec fn placeholders(text: Seq<char>) -> nat
    decreases text.len(),
{
    if text.len() == 0 {
        0
    } else {
        placeholders(text.drop_last()) + if text.last() == '?' && !is_open(text.drop_last()) {
            1nat
        } else {
            0nat
        }
    }
}

/// Placeholders add up behind a text that leaves no literal open.
pub proof fn lemma_placeholders_sum(a: Seq<char>, b: Seq<char>)
    requires
        !is_open(a),
    ensures
        placeholders(a + b) == placeholders(a) + placeholders(b),
        is_open(a + b) == is_open(b),
    decreases b.len(),
{
    if b.len() == 0 {
        assert(a + b =~= a);
    } else {
        assert((a + b).drop_last() =~= a + b.drop_last());
        lemma_placeholders_sum(a, b.drop_last());
    }
}

/// Whether a text takes no parameter and leaves no literal open.
pub open spec fn is_harmless(text: Seq<char>) -> bool {
    placeholders(text) == 0 && !is_open(text)
}

pub proof fn lemma_harmless_sum(a: Seq<char>, b: Seq<char>)
    requires
        is_harmless(a),
        is_harmless(b),
    ensures
        is_harmless(a + b),
{
    lemma_placeholders_sum(a, b);
}

/// A text without a quote leaves no literal open.
pub proof fn lemma_unquoted_text(text: Seq<char>)
    requires
        !text.contains('\''),
    ensures
        !is_open(text),
    decreases text.len(),
{
    if text.len() > 0 {
        let rest = text.drop_last();
        if rest.contains('\'') {
            let i = choose|i: int| 0 <= i < rest.len() && rest[i] == '\'';
            assert(text[i] == '\'');
        }
        lemma_unquoted_text(rest);
        assert(text[text.len() - 1] != '\'');
    }
}

/// A text without a quote and without a `?` is harmless.
pub proof fn lemma_harmless_text(text: Seq<char>)
    requires
        !text.contains('?'),
        !text.contains('\''),
    ensures
        is_harmless(text),
    decreases text.len(),
{
    lemma_unquoted_text(text);
    if text.len() > 0 {
        let rest = text.drop_last();
        assert forall|c: char| rest.contains(c) implies text.contains(c) by {
            let i = choose|i: int| 0 <= i < rest.len() && rest[i] == c;
            assert(text[i] == c);
        }
        lemma_harmless_text(rest);
        assert(text[text.len() - 1] != '?');
    }
}

pub proof fn lemma_harmless_joined(parts: Seq<Seq<char>>, separator: Seq<char>)
    requires
        is_harmless(separator),
        forall|i: int| 0 <= i < parts.len() ==> is_harmless(#[trigger] parts[i]),
    ensures
        is_harmless(joined(parts, separator)),
    decreases parts.len(),
{
    if parts.len() > 1 {
        let rest = parts.drop_last();
        assert forall|i: int| 0 <= i < rest.len() implies is_harmless(#[trigger] rest[i]) by {
            assert(rest[i] == parts[i]);
        }
        lemma_harmless_joined(rest, separator);
        lemma_harmless_sum(joined(rest, separator), separator);
        assert(parts.last() == parts[parts.len() - 1]);
        lemma_harmless_sum(joined(rest, separator) + separator, parts.last());
    }
}

/// A number in decimal holds no character but digits and a sign.
pub proof fn lemma_number_chars(n: int, c: char)
    requires
        !(48 <= c as u32 <= 57),
        c != '-',
    ensures
        !int_text(n).contains(c),
{
    if n < 0 {
        lemma_digit_chars((-n) as nat, c);
        let digits = nat_text((-n) as nat);
        if int_text(n).contains(c) {
            let i = choose|i: int| 0 <= i < int_text(n).len() && int_text(n)[i] == c;
            assert(i > 0 ==> digits[i - 1] == c);
        }
    } else {
        lemma_digit_chars(n as nat, c);
    }
}

proof fn lemma_digit_chars(n: nat, c: char)
    requires
        !(48 <= c as u32 <= 57),
    ensures
        !nat_text(n).contains(c),
    decreases n,
{
    if n >= 10 {
        lemma_digit_chars(n / 10, c);
        let rest = nat_text(n / 10);
        if nat_text(n).contains(c) {
            let i = choose|i: int| 0 <= i < nat_text(n).len() && nat_text(n)[i] == c;
            assert(i < rest.len() ==> rest[i] == c);
        }
    }
}

pub proof fn lemma_harmless_number(n: int)
    ensures
        is_harmless(int_text(n)),
{
    lemma_number_chars(n, '?');
    lemma_number_chars(n, '\'');
    lemma_harmless_text(int_text(n));
}

/// Whether the pieces of SQL that a filter on a column brings along are harmless.
pub open spec fn is_harmless_filter(filter: RenderedColumnFilter) -> bool {
    &&& is_harmless(filter.alias@)
    &&& is_harmless(filter.condition@)
    &&& forall|i: int|
        0 <= i < filter.stats@.len() ==> is_harmless((#[trigger] filter.stats@[i])@)
}

/// So are the columns that it selects.
pub proof fn lemma_harmless_stats(filter: RenderedColumnFilter)
    requires
        is_harmless_filter(filter),
    ensures
        is_harmless(joined(views(filter.stats@), ", "@)),
{
    reveal_strlit(", ");
    lemma_harmless_text(", "@);
    let parts = views(filter.stats@);
    assert forall|i: int| 0 <= i < parts.len() implies is_harmless(#[trigger] parts[i]) by {
        assert(parts[i] == filter.stats@[i]@);
    }
    lemma_harmless_joined(parts, ", "@);
}

// ---------------------------------------------------------------------------
// Numbered parameters
// ---------------------------------------------------------------------------

/// How often a `$` stands in front of a digit: how many numbered parameters `text`
/// refers to.
pub open spec fn references(text: Seq<char>) -> nat
    decreases text.len(),
{
    if text.len() < 2 {
        0
    } else {
        references(text.drop_last()) + if text[text.len() - 2] == '$' && is_digit(text.last()) {
            1nat
        } else {
            0nat
        }
    }
}

/// Whether a reference spans the end of `a` and the start of `b`.
pub open spec fn meet_in_reference(a: Seq<char>, b: Seq<char>) -> bool {
    a.len() > 0 && b.len() > 0 && a.last() == '$' && is_digit(b[0])
}

/// References add up, where none spans the two texts.
pub proof fn lemma_references_sum(a: Seq<char>, b: Seq<char>)
    requires
        !meet_in_reference(a, b),
    ensures
        references(a + b) == references(a) + references(b),
    decreases b.len(),
{
    if b.len() == 0 {
        assert(a + b =~= a);
    } else {
        let rest = b.drop_last();
        assert((a + b).drop_last() =~= a + rest);
        if rest.len() > 0 {
            assert(rest[0] == b[0]);
        }
        lemma_references_sum(a, rest);
        assert((a + b).last() == b.last());
        if b.len() == 1 {
            if a.len() > 0 {
                assert((a + b)[a.len() - 1] == a.last());
            }
        } else {
            assert((a + b)[(a + b).len() - 2] == b[b.len() - 2]);
        }
    }
}

/// Whether a text refers to no parameter, however it goes on.
pub open spec fn is_free(text: Seq<char>) -> bool {
    references(text) == 0 && (text.len() > 0 ==> text.last() != '$')
}

pub proof fn lemma_free_sum(a: Seq<char>, b: Seq<char>)
    requires
        is_free(a),
        is_free(b),
    ensures
        is_free(a + b),
{
    lemma_references_sum(a, b);
    if b.len() > 0 {
        assert((a + b).last() == b.last());
    } else {
        assert(a + b =~= a);
    }
}

/// A text without a `$` refers to no parameter.
pub proof fn lemma_free_text(text: Seq<char>)
    requires
        !text.contains('$'),
    ensures
        is_free(text),
    decreases text.len(),
{
    if text.len() > 0 {
        let rest = text.drop_last();
        if rest.contains('$') {
            let i = choose|i: int| 0 <= i < rest.len() && rest[i] == '$';
            assert(text[i] == '$');
        }
        lemma_free_text(rest);
        assert(text[text.len() - 1] != '$');
        if text.len() >= 2 {
            assert(text[text.len() - 2] != '$');
        }
    }
}

pub proof fn lemma_free_number(n: int)
    ensures
        is_free(int_text(n)),
{
    lemma_number_chars(n, '$');
    lemma_free_text(int_text(n));
}

pub proof fn lemma_free_joined(parts: Seq<Seq<char>>, separator: Seq<char>)
    requires
        is_free(separator),
        forall|i: int| 0 <= i < parts.len() ==> is_free(#[trigger] parts[i]),
    ensures
        is_free(joined(parts, separator)),
    decreases parts.len(),
{
    if parts.len() > 1 {
        let rest = parts.drop_last();
        assert forall|i: int| 0 <= i < rest.len() implies is_free(#[trigger] rest[i]) by {
            assert(rest[i] == parts[i]);
        }
        lemma_free_joined(rest, separator);
        lemma_free_sum(joined(rest, separator), separator);
        assert(parts.last() == parts[parts.len() - 1]);
        lemma_free_sum(joined(rest, separator) + separator, parts.last());
    }
}

/// The pieces of SQL that a filter on a column brings along refer to no numbered
/// parameter.
pub open spec fn refers_to_no_parameter(filter: RenderedColumnFilter) -> bool {
    &&& is_free(filter.alias@)
    &&& is_free(filter.condition@)
    &&& forall|i: int| 0 <= i < filter.stats@.len() ==> is_free((#[trigger] filter.stats@[i])@)
}

/// Nor do the columns that it selects.
pub proof fn lemma_free_stats(filter: RenderedColumnFilter)
    requires
        refers_to_no_parameter(filter),
    ensures
        is_free(joined(views(filter.stats@), ", "@)),
{
    reveal_strlit(", ");
    lemma_free_text(", "@);
    let parts = views(filter.stats@);
    assert forall|i: int| 0 <= i < parts.len() implies is_free(#[trigger] parts[i]) by {
        assert(parts[i] == filter.stats@[i]@);
    }
    lemma_free_joined(parts, ", "@);
}

} // verus!
