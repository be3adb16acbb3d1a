//! Text: what the library does with strings, stated over sequences of characters.
//!
//! A `String` or `&str` is modelled by its view, the sequence of its `char`s.
//! SQL is assembled by appending pieces, so most contracts elsewhere read as a
//! sum of literals and arguments; the functions here are the remaining ones.

use vstd::prelude::*;

verus! {

/// `String::push` appends one character to the end of the string and changes
/// nothing before it.
pub assume_specification[ String::push ](s: &mut String, c: char)
    ensures
        final(s)@ == old(s)@.push(c),
;

/// The views of a sequence of strings.
pub open spec fn views(parts: Seq<String>) -> Seq<Seq<char>> {
    parts.map_values(|part: String| part@)
}

/// The characters of `text` as a vector.
pub fn chars_of(text: &str) -> (out: Vec<char>)
    ensures
        out@ == text@,
{
    let mut out: Vec<char> = Vec::new();
    for c in it: text.chars()
        invariant
            it.seq() == text@,
            out@ =~= text@.take(it.index() as int),
    {
        out.push(c);
    }
    assert(text@.take(text@.len() as int) =~= text@);
    out
}

/// The string made of `chars[from..to]`.
pub fn string_of(chars: &Vec<char>, from: usize, to: usize) -> (out: String)
    requires
        from <= to <= chars@.len(),
    ensures
        out@ == chars@.subrange(from as int, to as int),
{
    let mut out = String::new();
    let mut i: usize = from;
    while i < to
        invariant
            from <= i <= to <= chars@.len(),
            out@ =~= chars@.subrange(from as int, i as int),
        decreases to - i,
    {
        out.push(chars[i]);
        i = i + 1;
    }
    out
}

/// Whether two strings hold the same characters.
pub fn same_text(a: &str, b: &str) -> (same: bool)
    ensures
        same == (a@ == b@),
{
    a.to_owned() == b.to_owned()
}

// ---------------------------------------------------------------------------
// Doubling a quote character
// ---------------------------------------------------------------------------

/// `text` with every occurrence of `mark` written twice.
pub open spec fn doubled(text: Seq<char>, mark: char) -> Seq<char>
    decreases text.len(),
{
    if text.len() == 0 {
        Seq::empty()
    } else if text.last() == mark {
        doubled(text.drop_last(), mark).push(mark).push(mark)
    } else {
        doubled(text.drop_last(), mark).push(text.last())
    }
}

/// Appends `text` to `out` with every `mark` written twice.
pub fn push_doubled(out: &mut String, text: &str, mark: char)
    ensures
        final(out)@ == old(out)@ + doubled(text@, mark),
{
    assert(text@.take(0) =~= Seq::empty());
    for c in it: text.chars()
        invariant
            it.seq() == text@,
            out@ =~= old(out)@ + doubled(text@.take(it.index() as int), mark),
    {
        assert(text@.take(it.index() as int + 1).drop_last() =~= text@.take(it.index() as int));
        if c == mark {
            out.push(mark);
            out.push(mark);
        } else {
            out.push(c);
        }
    }
    assert(text@.take(text@.len() as int) =~= text@);
}

/// `name` between two `mark`s, with every `mark` inside it written twice: how
/// SQL spells a quoted identifier or string.
pub open spec fn quoted(name: Seq<char>, mark: char) -> Seq<char> {
    (seq![mark] + doubled(name, mark)).push(mark)
}

/// Quotes `name` with `mark`.
pub fn quote_with(name: &str, mark: char) -> (out: String)
    ensures
        out@ == quoted(name@, mark),
{
    let mut out = String::new();
    out.push(mark);
    push_doubled(&mut out, name, mark);
    out.push(mark);
    assert(out@ =~= quoted(name@, mark));
    out
}

// ---------------------------------------------------------------------------
// Reading quoted text back
// ---------------------------------------------------------------------------

/// What a SQL scanner reads from text that starts just behind an opening
/// `mark`: the characters up to the first `mark` that is not itself followed by
/// a `mark`, pairs of `mark` read as one, and the rest behind the closing one.
/// `None` when the text ends before a closing `mark`.
pub open spec fn unquote(text: Seq<char>, mark: char) -> Option<(Seq<char>, Seq<char>)>
    decreases text.len(),
{
    if text.len() == 0 {
        None
    } else if text[0] != mark {
        match unquote(text.skip(1), mark) {
            Some((inner, rest)) => Some((seq![text[0]] + inner, rest)),
            None => None,
        }
    } else if text.len() >= 2 && text[1] == mark {
        match unquote(text.skip(2), mark) {
            Some((inner, rest)) => Some((seq![mark] + inner, rest)),
            None => None,
        }
    } else {
        Some((Seq::empty(), text.skip(1)))
    }
}

/// `doubled`, unfolded at the front.
pub proof fn lemma_doubled_first(text: Seq<char>, mark: char)
    requires
        text.len() > 0,
    ensures
        doubled(text, mark) == (if text[0] == mark {
            seq![mark, mark]
        } else {
            seq![text[0]]
        }) + doubled(text.skip(1), mark),
    decreases text.len(),
{
    let head = if text[0] == mark {
        seq![mark, mark]
    } else {
        seq![text[0]]
    };
    if text.len() == 1 {
        assert(text.drop_last() =~= Seq::empty());
        assert(text.skip(1) =~= Seq::empty());
        assert(doubled(Seq::<char>::empty(), mark) =~= Seq::empty());
        assert(doubled(text, mark) =~= head + doubled(text.skip(1), mark));
    } else {
        lemma_doubled_first(text.drop_last(), mark);
        assert(text.drop_last().skip(1) =~= text.skip(1).drop_last());
        assert(text.skip(1).last() == text.last());
        assert(doubled(text, mark) =~= head + doubled(text.skip(1), mark));
    }
}

/// Quoting is reversible whatever the name holds: a scanner that has read the
/// opening mark reads the name back, and stops at exactly the text that follows
/// the closing mark. Nothing in a name can end the quotation early.
pub proof fn lemma_unquote_quoted(name: Seq<char>, rest: Seq<char>, mark: char)
    requires
        rest.len() > 0 ==> rest[0] != mark,
    ensures
        unquote((quoted(name, mark) + rest).skip(1), mark) == Some((name, rest)),
{
    lemma_unquote_doubled(name, rest, mark);
    assert((quoted(name, mark) + rest).skip(1) =~= doubled(name, mark).push(mark) + rest);
}

proof fn lemma_unquote_doubled(name: Seq<char>, rest: Seq<char>, mark: char)
    requires
        rest.len() > 0 ==> rest[0] != mark,
    ensures
        unquote(doubled(name, mark).push(mark) + rest, mark) == Some((name, rest)),
    decreases name.len(),
{
    let text = doubled(name, mark).push(mark) + rest;
    if name.len() == 0 {
        assert(doubled(name, mark) =~= Seq::empty());
        assert(text.skip(1) =~= rest);
        assert(text[0] == mark);
        assert(name =~= Seq::empty());
    } else {
        lemma_doubled_first(name, mark);
        lemma_unquote_doubled(name.skip(1), rest, mark);
        let tail = doubled(name.skip(1), mark).push(mark) + rest;
        if name[0] == mark {
            assert(text =~= seq![mark, mark] + tail);
            assert(text.skip(2) =~= tail);
            assert(seq![mark] + name.skip(1) =~= name);
        } else {
            assert(text =~= seq![name[0]] + tail);
            assert(text.skip(1) =~= tail);
            assert(seq![name[0]] + name.skip(1) =~= name);
        }
    }
}

// ---------------------------------------------------------------------------
// Decimal integers
// ---------------------------------------------------------------------------

/// The character of the decimal digit `d`.
pub open spec fn digit_char(d: nat) -> char {
    (48 + d) as char
}

/// The decimal digits of a natural number, without leading zeros.
pub open spec fn nat_text(n: nat) -> Seq<char>
    decreases n,
{
    if n < 10 {
        seq![digit_char(n)]
    } else {
        nat_text(n / 10).push(digit_char(n % 10))
    }
}

/// An integer in decimal: a `-` in front of a negative one, no leading zeros.
pub open spec fn int_text(n: int) -> Seq<char> {
    if n < 0 {
        seq!['-'] + nat_text((-n) as nat)
    } else {
        nat_text(n as nat)
    }
}

fn push_nat(out: &mut String, n: u64)
    ensures
        final(out)@ == old(out)@ + nat_text(n as nat),
    decreases n,
{
    if n < 10 {
        let c: char = (48 + n as u8) as char;
        out.push(c);
        assert(out@ =~= old(out)@ + nat_text(n as nat));
    } else {
        push_nat(out, n / 10);
        let c: char = (48 + (n % 10) as u8) as char;
        out.push(c);
        assert(out@ =~= old(out)@ + nat_text(n as nat));
    }
}

/// Appends `n` in decimal.
pub fn push_u64(out: &mut String, n: u64)
    ensures
        final(out)@ == old(out)@ + int_text(n as int),
{
    push_nat(out, n);
}

/// Appends `n` in decimal.
pub fn push_i64(out: &mut String, n: i64)
    ensures
        final(out)@ == old(out)@ + int_text(n as int),
{
    if n < 0 {
        out.push('-');
        // `-(n + 1)` fits where `-n` might not.
        let magnitude: u64 = (-(n + 1)) as u64 + 1;
        push_nat(out, magnitude);
        assert(out@ =~= old(out)@ + int_text(n as int));
    } else {
        push_nat(out, n as u64);
    }
}

/// `n` in decimal.
pub fn i64_text(n: i64) -> (out: String)
    ensures
        out@ == int_text(n as int),
{
    let mut out = String::new();
    push_i64(&mut out, n);
    assert(out@ =~= int_text(n as int));
    out
}

// ---------------------------------------------------------------------------
// Joining
// ---------------------------------------------------------------------------

/// `parts` one after the other with `separator` between neighbours.
pub open spec fn joined(parts: Seq<Seq<char>>, separator: Seq<char>) -> Seq<char>
    decreases parts.len(),
{
    if parts.len() == 0 {
        Seq::empty()
    } else if parts.len() == 1 {
        parts[0]
    } else {
        joined(parts.drop_last(), separator) + separator + parts.last()
    }
}

/// Joins `parts` with `separator`.
pub fn join(parts: &Vec<String>, separator: &str) -> (out: String)
    ensures
        out@ == joined(views(parts@), separator@),
{
    let mut out = String::new();
    let mut i: usize = 0;
    while i < parts.len()
        invariant
            i <= parts@.len(),
            out@ =~= joined(views(parts@).take(i as int), separator@),
        decreases parts@.len() - i,
    {
        if i > 0 {
            out.append(separator);
        }
        out.append(parts[i].as_str());
        proof {
            let next = views(parts@).take(i as int + 1);
            assert(next.drop_last() =~= views(parts@).take(i as int));
            assert(next.last() == parts@[i as int]@);
        }
        i = i + 1;
    }
    assert(views(parts@).take(parts@.len() as int) =~= views(parts@));
    out
}

/// Parts are joined with the separator between each two of them, and nowhere else.
pub proof fn lemma_joined(a: Seq<Seq<char>>, b: Seq<Seq<char>>, part: Seq<char>, separator: Seq<char>)
    ensures
        joined(Seq::empty(), separator) == Seq::<char>::empty(),
        joined(seq![part], separator) == part,
        a.len() > 0 && b.len() > 0 ==> joined(a + b, separator) == joined(a, separator) + separator
            + joined(b, separator),
    decreases b.len(),
{
    if a.len() > 0 && b.len() > 0 {
        assert((a + b).drop_last() =~= a + b.drop_last());
        assert((a + b).last() == b.last());
        if b.len() == 1 {
            assert(a + b.drop_last() =~= a);
            assert(b.last() == b[0]);
        } else {
            lemma_joined(a, b.drop_last(), part, separator);
            assert(joined(a, separator) + separator + joined(b.drop_last(), separator) + separator
                + b.last() =~= joined(a, separator) + separator + (joined(b.drop_last(), separator)
                + separator + b.last()));
        }
    }
}

/// A mark is doubled wherever it stands, and no other character is touched.
pub proof fn lemma_doubled(a: Seq<char>, b: Seq<char>, c: char, mark: char)
    ensures
        doubled(a + b, mark) == doubled(a, mark) + doubled(b, mark),
        doubled(seq![mark], mark) == seq![mark, mark],
        c != mark ==> doubled(seq![c], mark) == seq![c],
    decreases b.len(),
{
    reveal_with_fuel(doubled, 2);
    assert(seq![mark].drop_last() =~= Seq::empty());
    assert(seq![c].drop_last() =~= Seq::empty());
    assert(doubled(seq![mark], mark) =~= seq![mark, mark]);
    assert(c != mark ==> doubled(seq![c], mark) =~= seq![c]);
    if b.len() > 0 {
        lemma_doubled(a, b.drop_last(), c, mark);
        assert((a + b).drop_last() =~= a + b.drop_last());
        assert((a + b).last() == b.last());
        assert(doubled(a + b, mark) =~= doubled(a, mark) + doubled(b, mark));
    } else {
        assert(a + b =~= a);
        assert(doubled(a, mark) + doubled(b, mark) =~= doubled(a, mark));
    }
}

} // verus!
