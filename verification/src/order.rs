//! Ordering: a verified stable sort, and the order of the keys it is used on.

use vstd::prelude::*;
use vstd::relations::*;
use crate::text::{chars_of, same_text, views};

verus! {

/// A key with a total preorder.
pub trait Ranked: Sized {
    /// Whether this key comes at or before `other`.
    spec fn precedes(self, other: Self) -> bool;

    proof fn lemma_total(a: Self, b: Self)
        ensures
            a.precedes(b) || b.precedes(a),
    ;

    proof fn lemma_transitive(a: Self, b: Self, c: Self)
        requires
            a.precedes(b),
            b.precedes(c),
        ensures
            a.precedes(c),
    ;

    fn at_or_before(&self, other: &Self) -> (before: bool)
        ensures
            before == self.precedes(*other),
    ;
}

/// A relation that holds one way or the other between any two positions, and
/// that is transitive.
pub open spec fn total_preorder(before: spec_fn(int, int) -> bool) -> bool {
    &&& forall|a: int, b: int| #[trigger] before(a, b) || before(b, a)
    &&& forall|a: int, b: int, c: int| #[trigger]
        before(a, b) && #[trigger] before(b, c) ==> before(a, c)
}

/// The order a stable sort puts positions in: by `before`, and what `before`
/// does not tell apart as it stood.
pub open spec fn tie_broken(before: spec_fn(int, int) -> bool) -> spec_fn(int, int) -> bool {
    |a: int, b: int| before(a, b) && (before(b, a) ==> a <= b)
}

/// The order of positions by the keys that stand there.
pub open spec fn by_key<K: Ranked>(keys: Seq<K>) -> spec_fn(int, int) -> bool {
    |a: int, b: int| keys[a].precedes(keys[b])
}

/// The positions `items`, given in ascending order, stably sorted by `before`.
pub open spec fn stably_sorted(items: Seq<int>, before: spec_fn(int, int) -> bool) -> Seq<int> {
    items.sort_by(tie_broken(before))
}

/// `0`, `1`, up to but not including `n`.
pub open spec fn positions(n: nat) -> Seq<int> {
    Seq::new(n, |i: int| i)
}

/// Each position is larger than the one in front of it.
pub open spec fn ascending(items: Seq<int>) -> bool {
    forall|i: int, j: int| 0 <= i < j < items.len() ==> (#[trigger] items[i]) < #[trigger] items[j]
}

/// A sequence of machine positions as integers.
pub open spec fn ints(s: Seq<usize>) -> Seq<int> {
    s.map_values(|p: usize| p as int)
}

/// Breaking ties by position turns a total preorder into a total order.
pub proof fn lemma_tie_broken_total(before: spec_fn(int, int) -> bool)
    requires
        total_preorder(before),
    ensures
        total_ordering(tie_broken(before)),
{
    let leq = tie_broken(before);
    assert forall|a: int| #[trigger] leq(a, a) by {
        assert(before(a, a) || before(a, a));
    }
    assert forall|a: int, b: int, c: int| #[trigger]
        leq(a, b) && #[trigger] leq(b, c) implies leq(a, c) by {
        assert(before(a, b) && before(b, c));
        if before(c, a) {
            assert(before(b, c) && before(c, a));
            assert(before(c, a) && before(a, b));
        }
    }
    assert forall|a: int, b: int| #[trigger] leq(a, b) || #[trigger] leq(b, a) by {
        assert(before(a, b) || before(b, a));
    }
}

proof fn lemma_by_key_preorder<K: Ranked>(keys: Seq<K>)
    ensures
        total_preorder(by_key(keys)),
{
    let before = by_key(keys);
    assert forall|a: int, b: int| #[trigger] before(a, b) || before(b, a) by {
        K::lemma_total(keys[a], keys[b]);
    }
    assert forall|a: int, b: int, c: int| #[trigger]
        before(a, b) && #[trigger] before(b, c) implies before(a, c) by {
        K::lemma_transitive(keys[a], keys[b], keys[c]);
    }
}

/// Merges two sorted runs of positions.
fn merge_runs<K: Ranked>(keys: &Vec<K>, left: &Vec<usize>, right: &Vec<usize>) -> (out: Vec<usize>)
    requires
        forall|i: int| 0 <= i < left@.len() ==> (#[trigger] left@[i]) < keys@.len(),
        forall|i: int| 0 <= i < right@.len() ==> (#[trigger] right@[i]) < keys@.len(),
        sorted_by(ints(left@), tie_broken(by_key(keys@))),
        sorted_by(ints(right@), tie_broken(by_key(keys@))),
        forall|i: int, j: int|
            0 <= i < left@.len() && 0 <= j < right@.len() ==> (#[trigger] left@[i])
                < #[trigger] right@[j],
    ensures
        forall|i: int| 0 <= i < out@.len() ==> (#[trigger] out@[i]) < keys@.len(),
        sorted_by(ints(out@), tie_broken(by_key(keys@))),
        ints(out@).to_multiset() =~= ints(left@).to_multiset().add(ints(right@).to_multiset()),
{
    broadcast use vstd::seq_lib::group_to_multiset_ensures;

    let ghost leq = tie_broken(by_key(keys@));
    let mut out: Vec<usize> = Vec::new();
    let mut i: usize = 0;
    let mut j: usize = 0;
    proof {
        lemma_by_key_preorder(keys@);
        lemma_tie_broken_total(by_key(keys@));
        assert(ints(left@.take(0)) =~= Seq::empty());
        assert(ints(right@.take(0)) =~= Seq::empty());
        assert(ints(out@) =~= Seq::empty());
        assert(ints(out@).to_multiset() =~= ints(left@.take(0)).to_multiset().add(
            ints(right@.take(0)).to_multiset(),
        ));
    }
    while i < left.len() || j < right.len()
        invariant
            i <= left@.len(),
            j <= right@.len(),
            leq == tie_broken(by_key(keys@)),
            total_ordering(leq),
            forall|k: int| 0 <= k < left@.len() ==> (#[trigger] left@[k]) < keys@.len(),
            forall|k: int| 0 <= k < right@.len() ==> (#[trigger] right@[k]) < keys@.len(),
            sorted_by(ints(left@), leq),
            sorted_by(ints(right@), leq),
            forall|k: int, l: int|
                0 <= k < left@.len() && 0 <= l < right@.len() ==> (#[trigger] left@[k])
                    < #[trigger] right@[l],
            forall|k: int| 0 <= k < out@.len() ==> (#[trigger] out@[k]) < keys@.len(),
            sorted_by(ints(out@), leq),
            forall|k: int, l: int|
                0 <= k < out@.len() && i <= l < left@.len() ==> #[trigger] leq(
                    ints(out@)[k],
                    ints(left@)[l],
                ),
            forall|k: int, l: int|
                0 <= k < out@.len() && j <= l < right@.len() ==> #[trigger] leq(
                    ints(out@)[k],
                    ints(right@)[l],
                ),
            ints(out@).to_multiset() =~= ints(left@.take(i as int)).to_multiset().add(
                ints(right@.take(j as int)).to_multiset(),
            ),
        decreases left@.len() - i + right@.len() - j,
    {
        let ghost before = out@;
        let take_left = if i == left.len() {
            false
        } else if j == right.len() {
            true
        } else {
            keys[left[i]].at_or_before(&keys[right[j]])
        };
        if take_left {
            out.push(left[i]);
            proof {
                let x = left@[i as int] as int;
                assert(ints(out@) =~= ints(before).push(x));
                assert(ints(left@.take(i as int + 1)) =~= ints(left@.take(i as int)).push(x));
                assert forall|l: int| j <= l < right@.len() implies #[trigger] leq(
                    x,
                    ints(right@)[l],
                ) by {
                    let y = ints(right@)[j as int];
                    assert(leq(x, y));
                    if l > j {
                        assert(leq(y, ints(right@)[l]));
                    }
                }
                assert forall|l: int| i < l < left@.len() implies #[trigger] leq(
                    x,
                    ints(left@)[l],
                ) by {
                    assert(leq(ints(left@)[i as int], ints(left@)[l]));
                }
                assert forall|k: int| 0 <= k < before.len() implies #[trigger] leq(
                    ints(before)[k],
                    x,
                ) by {
                    assert(leq(ints(before)[k], ints(left@)[i as int]));
                }
                lemma_push_sorted(ints(before), x, leq);
                lemma_push_multiset(ints(before), x);
                lemma_push_multiset(ints(left@.take(i as int)), x);
                lemma_insert_left(
                    ints(left@.take(i as int)).to_multiset(),
                    ints(right@.take(j as int)).to_multiset(),
                    x,
                );
            }
            i = i + 1;
        } else {
            out.push(right[j]);
            proof {
                let x = right@[j as int] as int;
                assert(ints(out@) =~= ints(before).push(x));
                assert(ints(right@.take(j as int + 1)) =~= ints(right@.take(j as int)).push(x));
                assert forall|l: int| i <= l < left@.len() implies #[trigger] leq(
                    x,
                    ints(left@)[l],
                ) by {
                    let y = ints(left@)[i as int];
                    K::lemma_total(keys@[x], keys@[y]);
                    assert(leq(x, y));
                    if l > i {
                        assert(leq(y, ints(left@)[l]));
                    }
                }
                assert forall|l: int| j < l < right@.len() implies #[trigger] leq(
                    x,
                    ints(right@)[l],
                ) by {
                    assert(leq(ints(right@)[j as int], ints(right@)[l]));
                }
                assert forall|k: int| 0 <= k < before.len() implies #[trigger] leq(
                    ints(before)[k],
                    x,
                ) by {
                    assert(leq(ints(before)[k], ints(right@)[j as int]));
                }
                lemma_push_sorted(ints(before), x, leq);
                lemma_push_multiset(ints(before), x);
                lemma_push_multiset(ints(right@.take(j as int)), x);
                lemma_insert_right(
                    ints(left@.take(i as int)).to_multiset(),
                    ints(right@.take(j as int)).to_multiset(),
                    x,
                );
            }
            j = j + 1;
        }
        assert(forall|k: int| 0 <= k < before.len() ==> ints(out@)[k] == ints(before)[k]);
    }
    assert(left@.take(left@.len() as int) =~= left@);
    assert(right@.take(right@.len() as int) =~= right@);
    out
}

proof fn lemma_push_sorted(s: Seq<int>, x: int, leq: spec_fn(int, int) -> bool)
    requires
        sorted_by(s, leq),
        forall|k: int| 0 <= k < s.len() ==> #[trigger] leq(s[k], x),
    ensures
        sorted_by(s.push(x), leq),
{
    assert forall|i: int, j: int| 0 <= i < j < s.push(x).len() implies #[trigger] leq(
        s.push(x)[i],
        s.push(x)[j],
    ) by {
        if j == s.len() {
            assert(leq(s[i], x));
        } else {
            assert(leq(s[i], s[j]));
        }
    }
}

proof fn lemma_push_multiset(s: Seq<int>, x: int)
    ensures
        s.push(x).to_multiset() == s.to_multiset().insert(x),
{
    broadcast use vstd::seq_lib::group_to_multiset_ensures;

}

proof fn lemma_insert_left(
    a: vstd::multiset::Multiset<int>,
    b: vstd::multiset::Multiset<int>,
    x: int,
)
    ensures
        a.add(b).insert(x) =~= a.insert(x).add(b),
{
}

proof fn lemma_insert_right(
    a: vstd::multiset::Multiset<int>,
    b: vstd::multiset::Multiset<int>,
    x: int,
)
    ensures
        a.add(b).insert(x) =~= a.add(b.insert(x)),
{
}

/// Whether `x` is one of `items[from..to]`.
spec fn picked(x: usize, items: Seq<usize>, from: int, to: int) -> bool {
    exists|k: int| from <= k < to && x == #[trigger] items[k]
}

fn sort_range<K: Ranked>(keys: &Vec<K>, items: &Vec<usize>, from: usize, to: usize) -> (out: Vec<
    usize,
>)
    requires
        from <= to <= items@.len(),
        forall|i: int| 0 <= i < items@.len() ==> (#[trigger] items@[i]) < keys@.len(),
        ascending(ints(items@)),
    ensures
        forall|i: int|
            0 <= i < out@.len() ==> picked(#[trigger] out@[i], items@, from as int, to as int),
        sorted_by(ints(out@), tie_broken(by_key(keys@))),
        ints(out@).to_multiset() =~= ints(items@).subrange(from as int, to as int).to_multiset(),
    decreases to - from,
{
    if from == to {
        let out: Vec<usize> = Vec::new();
        assert(ints(out@) =~= ints(items@).subrange(from as int, to as int));
        out
    } else if to - from == 1 {
        let mut out: Vec<usize> = Vec::new();
        out.push(items[from]);
        assert(out@[0] == items@[from as int]);
        assert(ints(out@) =~= ints(items@).subrange(from as int, to as int));
        out
    } else {
        let middle: usize = from + (to - from) / 2;
        let left = sort_range(keys, items, from, middle);
        let right = sort_range(keys, items, middle, to);
        proof {
            assert forall|i: int, j: int|
                0 <= i < left@.len() && 0 <= j < right@.len() implies (#[trigger] left@[i])
                < #[trigger] right@[j] by {
                assert(picked(left@[i], items@, from as int, middle as int));
                assert(picked(right@[j], items@, middle as int, to as int));
                let k = choose|k: int| from <= k < middle && left@[i] == #[trigger] items@[k];
                let l = choose|l: int| middle <= l < to && right@[j] == #[trigger] items@[l];
                assert(ints(items@)[k] < ints(items@)[l]);
            }
        }
        let out = merge_runs(keys, &left, &right);
        proof {
            let whole = ints(items@).subrange(from as int, to as int);
            let first = ints(items@).subrange(from as int, middle as int);
            let second = ints(items@).subrange(middle as int, to as int);
            assert(whole =~= first + second);
            vstd::seq_lib::lemma_multiset_commutative(first, second);
            assert forall|i: int| 0 <= i < out@.len() implies picked(
                #[trigger] out@[i],
                items@,
                from as int,
                to as int,
            ) by {
                broadcast use vstd::seq_lib::group_to_multiset_ensures;

                let x = ints(out@)[i];
                assert(ints(out@).contains(x));
                assert(ints(out@).to_multiset().count(x) > 0);
                assert(whole.to_multiset().count(x) > 0);
                assert(whole.contains(x));
                let k = choose|k: int| 0 <= k < whole.len() && whole[k] == x;
                assert(out@[i] == items@[from + k]);
            }
        }
        out
    }
}

/// `items` stably sorted by the keys at their positions.
pub(crate) fn sort_items<K: Ranked>(
    keys: &Vec<K>,
    items: &Vec<usize>,
    Ghost(before): Ghost<spec_fn(int, int) -> bool>,
) -> (out: Vec<usize>)
    requires
        forall|i: int| 0 <= i < items@.len() ==> (#[trigger] items@[i]) < keys@.len(),
        ascending(ints(items@)),
        total_preorder(before),
        forall|a: int, b: int|
            0 <= a < keys@.len() && 0 <= b < keys@.len() ==> #[trigger] before(a, b)
                == keys@[a].precedes(keys@[b]),
    ensures
        ints(out@) == stably_sorted(ints(items@), before),
        out@.len() == items@.len(),
        forall|i: int| 0 <= i < out@.len() ==> (#[trigger] out@[i]) < keys@.len(),
{
    let out = sort_range(keys, items, 0, items.len());
    proof {
        let all = ints(items@);
        let leq = tie_broken(before);
        assert(all.subrange(0, all.len() as int) =~= all);
        lemma_tie_broken_total(before);
        all.lemma_sort_by_ensures(leq);
        assert forall|i: int, j: int| 0 <= i < j < ints(out@).len() implies #[trigger] leq(
            ints(out@)[i],
            ints(out@)[j],
        ) by {
            let keyed = tie_broken(by_key(keys@));
            let a = ints(out@)[i];
            let b = ints(out@)[j];
            assert(keyed(a, b));
            assert(picked(out@[i], items@, 0, items@.len() as int));
            assert(picked(out@[j], items@, 0, items@.len() as int));
            let k = choose|k: int| 0 <= k < items@.len() && out@[i] == #[trigger] items@[k];
            let l = choose|l: int| 0 <= l < items@.len() && out@[j] == #[trigger] items@[l];
            assert(before(a, b) == keys@[a].precedes(keys@[b]));
            assert(before(b, a) == keys@[b].precedes(keys@[a]));
        }
        vstd::seq_lib::lemma_sorted_unique(ints(out@), stably_sorted(all, before), leq);
        broadcast use vstd::seq_lib::group_to_multiset_ensures;

        assert(ints(out@).to_multiset().len() == all.to_multiset().len());
        assert(ints(out@).len() == all.len());
    }
    out
}

/// What a stable sort promises: the same positions, each as often as before, in
/// order, and positions that `before` does not tell apart as they stood.
pub proof fn lemma_stably_sorted(items: Seq<int>, before: spec_fn(int, int) -> bool)
    requires
        total_preorder(before),
        ascending(items),
    ensures
        stably_sorted(items, before).len() == items.len(),
        stably_sorted(items, before).to_multiset() == items.to_multiset(),
        sorted_by(stably_sorted(items, before), tie_broken(before)),
        stably_sorted(items, before).no_duplicates(),
        forall|x: int| #[trigger]
            stably_sorted(items, before).contains(x) == items.contains(x),
{
    broadcast use vstd::seq_lib::group_to_multiset_ensures;

    let sorted = stably_sorted(items, before);
    lemma_tie_broken_total(before);
    items.lemma_sort_by_ensures(tie_broken(before));
    assert(items.to_multiset() == sorted.to_multiset());
    assert(items.to_multiset().len() == sorted.to_multiset().len());
    assert forall|x: int| #[trigger] sorted.contains(x) == items.contains(x) by {
        assert(items.contains(x) == (items.to_multiset().count(x) > 0));
        assert(sorted.contains(x) == (sorted.to_multiset().count(x) > 0));
    }
    assert(items.no_duplicates());
    items.lemma_multiset_has_no_duplicates();
    sorted.lemma_multiset_has_no_duplicates_conv();
}

impl Ranked for i32 {
    open spec fn precedes(self, other: Self) -> bool {
        self <= other
    }

    proof fn lemma_total(a: Self, b: Self) {
    }

    proof fn lemma_transitive(a: Self, b: Self, c: Self) {
    }

    fn at_or_before(&self, other: &Self) -> (before: bool) {
        *self <= *other
    }
}

// ---------------------------------------------------------------------------
// The order of text
// ---------------------------------------------------------------------------

/// How `a` stands to `b` in character order: negative in front of it, positive
/// behind it, zero when they are the same. A text stands in front of every
/// longer one that starts with it.
pub open spec fn text_order(a: Seq<char>, b: Seq<char>) -> int
    decreases a.len(),
{
    if a.len() == 0 {
        if b.len() == 0 {
            0
        } else {
            -1
        }
    } else if b.len() == 0 {
        1
    } else if a[0] != b[0] {
        if a[0] < b[0] {
            -1
        } else {
            1
        }
    } else {
        text_order(a.skip(1), b.skip(1))
    }
}

pub proof fn lemma_text_order(a: Seq<char>, b: Seq<char>)
    ensures
        text_order(a, b) == -text_order(b, a),
        text_order(a, b) == 0 <==> a == b,
    decreases a.len(),
{
    if a.len() > 0 && b.len() > 0 {
        lemma_text_order(a.skip(1), b.skip(1));
        if a[0] == b[0] {
            assert(a =~= seq![a[0]] + a.skip(1));
            assert(b =~= seq![b[0]] + b.skip(1));
        }
    } else if a.len() == 0 && b.len() == 0 {
        assert(a =~= b);
    }
}

pub proof fn lemma_text_order_transitive(a: Seq<char>, b: Seq<char>, c: Seq<char>)
    requires
        text_order(a, b) <= 0,
        text_order(b, c) <= 0,
    ensures
        text_order(a, c) <= 0,
    decreases a.len(),
{
    if a.len() > 0 && b.len() > 0 && c.len() > 0 && a[0] == b[0] && b[0] == c[0] {
        lemma_text_order_transitive(a.skip(1), b.skip(1), c.skip(1));
    }
}

/// A common start does not matter.
pub proof fn lemma_same_start(start: Seq<char>, a: Seq<char>, b: Seq<char>)
    ensures
        text_order(start + a, start + b) == text_order(a, b),
    decreases start.len(),
{
    if start.len() == 0 {
        assert(start + a =~= a);
        assert(start + b =~= b);
    } else {
        lemma_same_start(start.skip(1), a, b);
        assert((start + a).skip(1) =~= start.skip(1) + a);
        assert((start + b).skip(1) =~= start.skip(1) + b);
    }
}

/// Starts of one length that differ decide.
pub proof fn lemma_different_start(p: Seq<char>, q: Seq<char>, a: Seq<char>, b: Seq<char>)
    requires
        p.len() == q.len(),
        p != q,
    ensures
        text_order(p + a, q + b) == text_order(p, q),
    decreases p.len(),
{
    if p.len() == 0 {
        assert(p =~= q);
    } else if p[0] == q[0] {
        assert((p + a).skip(1) =~= p.skip(1) + a);
        assert((q + b).skip(1) =~= q.skip(1) + b);
        if p.skip(1) == q.skip(1) {
            assert(p =~= seq![p[0]] + p.skip(1));
            assert(q =~= seq![q[0]] + q.skip(1));
        }
        lemma_different_start(p.skip(1), q.skip(1), a, b);
    }
}

/// How `a` stands to `b` in character order.
pub fn order_text(a: &str, b: &str) -> (order: i32)
    ensures
        order == text_order(a@, b@),
{
    let a_chars = chars_of(a);
    let b_chars = chars_of(b);
    let mut i: usize = 0;
    assert(a@.skip(0) =~= a@);
    assert(b@.skip(0) =~= b@);
    while i < a_chars.len() && i < b_chars.len()
        invariant
            i <= a_chars@.len(),
            i <= b_chars@.len(),
            a_chars@ == a@,
            b_chars@ == b@,
            text_order(a@, b@) == text_order(a@.skip(i as int), b@.skip(i as int)),
        decreases a_chars@.len() - i,
    {
        if a_chars[i] != b_chars[i] {
            return if a_chars[i] < b_chars[i] {
                -1
            } else {
                1
            };
        }
        assert(a@.skip(i as int).skip(1) =~= a@.skip(i + 1));
        assert(b@.skip(i as int).skip(1) =~= b@.skip(i + 1));
        i = i + 1;
    }
    if i < b_chars.len() {
        -1
    } else if i < a_chars.len() {
        1
    } else {
        0
    }
}

impl Ranked for String {
    open spec fn precedes(self, other: Self) -> bool {
        text_order(self@, other@) <= 0
    }

    proof fn lemma_total(a: Self, b: Self) {
        lemma_text_order(a@, b@);
    }

    proof fn lemma_transitive(a: Self, b: Self, c: Self) {
        lemma_text_order_transitive(a@, b@, c@);
    }

    fn at_or_before(&self, other: &Self) -> (before: bool) {
        order_text(self.as_str(), other.as_str()) <= 0
    }
}

/// Whether each text stands in front of the next ones, so that none occurs twice.
pub open spec fn strictly_sorted(texts: Seq<Seq<char>>) -> bool {
    forall|i: int, j: int|
        0 <= i < j < texts.len() ==> #[trigger] text_order(texts[i], texts[j]) < 0
}

/// Whether two sequences hold the same texts, however often and in whatever order.
pub open spec fn same_texts(a: Seq<Seq<char>>, b: Seq<Seq<char>>) -> bool {
    forall|text: Seq<char>| #[trigger] a.contains(text) == b.contains(text)
}

/// Two sequences that are strictly sorted and hold the same texts are equal.
pub proof fn lemma_strictly_sorted_unique(a: Seq<Seq<char>>, b: Seq<Seq<char>>)
    requires
        strictly_sorted(a),
        strictly_sorted(b),
        same_texts(a, b),
    ensures
        a == b,
    decreases a.len(),
{
    if a.len() == 0 {
        if b.len() > 0 {
            assert(b.contains(b[0]));
            assert(a.contains(b[0]));
        }
        assert(a =~= b);
    } else {
        assert(a.contains(a.last()));
        assert(b.contains(a.last()));
        assert(b.contains(b.last()));
        assert(a.contains(b.last()));
        let k = choose|k: int| 0 <= k < b.len() && b[k] == a.last();
        let l = choose|l: int| 0 <= l < a.len() && a[l] == b.last();
        lemma_text_order(a.last(), b.last());
        if k < b.len() - 1 {
            assert(text_order(b[k], b[b.len() - 1]) < 0);
        }
        if l < a.len() - 1 {
            assert(text_order(a[l], a[a.len() - 1]) < 0);
        }
        assert(a.last() == b.last());
        let (a_rest, b_rest) = (a.drop_last(), b.drop_last());
        assert forall|text: Seq<char>| #[trigger]
            a_rest.contains(text) == b_rest.contains(text) by {
            lemma_contains_rest(a, text);
            lemma_contains_rest(b, text);
            assert(a.contains(text) == b.contains(text));
        }
        lemma_strictly_sorted_unique(a_rest, b_rest);
        assert(a =~= a_rest.push(a.last()));
        assert(b =~= b_rest.push(b.last()));
    }
}

/// The last text of a strictly sorted sequence occurs nowhere else in it.
proof fn lemma_contains_rest(texts: Seq<Seq<char>>, text: Seq<char>)
    requires
        strictly_sorted(texts),
        texts.len() > 0,
    ensures
        texts.drop_last().contains(text) == (texts.contains(text) && text != texts.last()),
{
    let rest = texts.drop_last();
    if rest.contains(text) {
        let k = choose|k: int| 0 <= k < rest.len() && rest[k] == text;
        assert(texts[k] == text);
        assert(text_order(texts[k], texts[texts.len() - 1]) < 0);
        lemma_text_order(texts[k], texts.last());
    }
    if texts.contains(text) && text != texts.last() {
        let k = choose|k: int| 0 <= k < texts.len() && texts[k] == text;
        assert(rest[k] == text);
    }
}

/// `texts` in order, each of them once.
pub fn sorted_distinct(texts: Vec<String>) -> (out: Vec<String>)
    ensures
        strictly_sorted(views(out@)),
        same_texts(views(out@), views(texts@)),
{
    let mut items: Vec<usize> = Vec::new();
    let length: usize = texts.len();
    let mut i: usize = 0;
    while i < length
        invariant
            i <= length,
            items@.len() == i,
            forall|k: int| 0 <= k < i ==> #[trigger] items@[k] == k,
        decreases length - i,
    {
        items.push(i);
        i = i + 1;
    }
    let ghost before = by_text(texts@);
    proof {
        lemma_by_text_total(texts@);
    }
    let order = sort_items(&texts, &items, Ghost(before));
    proof {
        assert(ints(items@) =~= positions(length as nat));
        lemma_stably_sorted(ints(items@), before);
    }
    let mut out: Vec<String> = Vec::new();
    let mut n: usize = 0;
    while n < order.len()
        invariant
            order@.len() == length == texts@.len(),
            before == by_text(texts@),
            sorted_by(ints(order@), tie_broken(before)),
            forall|k: int| 0 <= k < order@.len() ==> (#[trigger] order@[k]) < texts@.len(),
            n <= order@.len(),
            strictly_sorted(views(out@)),
            n > 0 ==> out@.len() > 0 && out@.last()@ == texts@[order@[n - 1] as int]@,
            n == 0 ==> out@.len() == 0,
            forall|k: int|
                0 <= k < n ==> #[trigger] views(out@).contains(texts@[order@[k] as int]@),
            forall|text: Seq<char>| #[trigger]
                views(out@).contains(text) ==> views(texts@).contains(text),
        decreases order@.len() - n,
    {
        let ghost was = out@;
        let next = &texts[order[n]];
        let repeated = if n > 0 {
            same_text(out[out.len() - 1].as_str(), next.as_str())
        } else {
            false
        };
        if !repeated {
            out.push(next.clone());
            proof {
                assert(views(out@) =~= views(was).push(next@));
                assert forall|i: int, j: int| 0 <= i < j < out@.len() implies #[trigger] text_order(
                    views(out@)[i],
                    views(out@)[j],
                ) < 0 by {
                    if j < was.len() {
                        assert(text_order(views(was)[i], views(was)[j]) < 0);
                    } else {
                        let last = was.last()@;
                        assert(tie_broken(before)(ints(order@)[n - 1], ints(order@)[n as int]));
                        assert(before(order@[n - 1] as int, order@[n as int] as int));
                        lemma_text_order(last, next@);
                        if i < was.len() - 1 {
                            assert(text_order(views(was)[i], views(was)[was.len() - 1]) < 0);
                            lemma_text_order_transitive(views(was)[i], last, next@);
                            lemma_text_order(views(was)[i], next@);
                            if views(was)[i] == next@ {
                                lemma_text_order(views(was)[i], last);
                            }
                        }
                    }
                }
                assert forall|text: Seq<char>| #[trigger] views(out@).contains(text) implies views(
                    texts@,
                ).contains(text) by {
                    let k = choose|k: int| 0 <= k < views(out@).len() && views(out@)[k] == text;
                    if k < was.len() {
                        assert(views(was)[k] == text);
                        assert(views(was).contains(text));
                    } else {
                        assert(views(texts@)[order@[n as int] as int] == text);
                    }
                }
            }
        }
        proof {
            assert forall|k: int| 0 <= k < n + 1 implies #[trigger] views(out@).contains(
                texts@[order@[k] as int]@,
            ) by {
                if k < n {
                    assert(views(was).contains(texts@[order@[k] as int]@));
                    let m = choose|m: int|
                        0 <= m < views(was).len() && views(was)[m] == texts@[order@[k] as int]@;
                    assert(views(out@)[m] == texts@[order@[k] as int]@);
                } else {
                    assert(views(out@)[out@.len() - 1] == next@);
                }
            }
        }
        n = n + 1;
    }
    proof {
        assert forall|text: Seq<char>| #[trigger] views(out@).contains(text) == views(
            texts@,
        ).contains(text) by {
            if views(texts@).contains(text) {
                let p = choose|p: int| 0 <= p < views(texts@).len() && views(texts@)[p] == text;
                assert(positions(length as nat)[p] == p);
                assert(positions(length as nat).contains(p));
                assert(ints(order@).contains(p));
                let k = choose|k: int| 0 <= k < ints(order@).len() && ints(order@)[k] == p;
                assert(order@[k] == p);
                assert(views(out@).contains(texts@[order@[k] as int]@));
            }
        }
    }
    out
}

/// The order of positions by the texts that stand there, and every position that
/// has none behind the ones that have.
spec fn by_text(texts: Seq<String>) -> spec_fn(int, int) -> bool {
    |a: int, b: int|
        if 0 <= a < texts.len() && 0 <= b < texts.len() {
            texts[a].precedes(texts[b])
        } else {
            0 <= a < texts.len() || !(0 <= b < texts.len())
        }
}

proof fn lemma_by_text_total(texts: Seq<String>)
    ensures
        total_preorder(by_text(texts)),
{
    let before = by_text(texts);
    assert forall|a: int, b: int| #[trigger] before(a, b) || before(b, a) by {
        if 0 <= a < texts.len() && 0 <= b < texts.len() {
            <String as Ranked>::lemma_total(texts[a], texts[b]);
        }
    }
    assert forall|a: int, b: int, c: int| #[trigger] before(a, b) && #[trigger] before(
        b,
        c,
    ) implies before(a, c) by {
        if 0 <= a < texts.len() && 0 <= b < texts.len() && 0 <= c < texts.len() {
            <String as Ranked>::lemma_transitive(texts[a], texts[b], texts[c]);
        }
    }
}

// ---------------------------------------------------------------------------
// The order of lists of optional text
// ---------------------------------------------------------------------------

/// The view of an optional string.
pub open spec fn opt_view(value: Option<String>) -> Option<Seq<char>> {
    match value {
        Some(text) => Some(text@),
        None => None,
    }
}

/// The views of a sequence of optional strings.
pub open spec fn opt_views(values: Seq<Option<String>>) -> Seq<Option<Seq<char>>> {
    values.map_values(|value: Option<String>| opt_view(value))
}

/// Absent values stand in front of present ones.
pub open spec fn value_order(a: Option<Seq<char>>, b: Option<Seq<char>>) -> int {
    match (a, b) {
        (None, None) => 0,
        (None, Some(_)) => -1,
        (Some(_), None) => 1,
        (Some(x), Some(y)) => text_order(x, y),
    }
}

/// Lists are ordered by their first difference; a list stands in front of every
/// longer one that starts with it.
pub open spec fn values_order(a: Seq<Option<Seq<char>>>, b: Seq<Option<Seq<char>>>) -> int
    decreases a.len(),
{
    if a.len() == 0 {
        if b.len() == 0 {
            0
        } else {
            -1
        }
    } else if b.len() == 0 {
        1
    } else if value_order(a[0], b[0]) != 0 {
        value_order(a[0], b[0])
    } else {
        values_order(a.skip(1), b.skip(1))
    }
}

pub proof fn lemma_value_order(a: Option<Seq<char>>, b: Option<Seq<char>>)
    ensures
        value_order(a, b) == -value_order(b, a),
        value_order(a, b) == 0 <==> a == b,
{
    if let (Some(x), Some(y)) = (a, b) {
        lemma_text_order(x, y);
    }
}

proof fn lemma_value_order_transitive(
    a: Option<Seq<char>>,
    b: Option<Seq<char>>,
    c: Option<Seq<char>>,
)
    requires
        value_order(a, b) <= 0,
        value_order(b, c) <= 0,
    ensures
        value_order(a, c) <= 0,
        value_order(a, c) == 0 ==> value_order(a, b) == 0 && value_order(b, c) == 0,
{
    if let (Some(x), Some(y), Some(z)) = (a, b, c) {
        lemma_text_order_transitive(x, y, z);
    }
    lemma_value_order(a, b);
    lemma_value_order(b, c);
    lemma_value_order(a, c);
}

pub proof fn lemma_values_order(a: Seq<Option<Seq<char>>>, b: Seq<Option<Seq<char>>>)
    ensures
        values_order(a, b) == -values_order(b, a),
        values_order(a, b) == 0 <==> a == b,
    decreases a.len(),
{
    if a.len() > 0 && b.len() > 0 {
        lemma_value_order(a[0], b[0]);
        lemma_values_order(a.skip(1), b.skip(1));
        if a[0] == b[0] {
            assert(a =~= seq![a[0]] + a.skip(1));
            assert(b =~= seq![b[0]] + b.skip(1));
        }
    } else if a.len() == 0 && b.len() == 0 {
        assert(a =~= b);
    }
}

pub proof fn lemma_values_order_transitive(
    a: Seq<Option<Seq<char>>>,
    b: Seq<Option<Seq<char>>>,
    c: Seq<Option<Seq<char>>>,
)
    requires
        values_order(a, b) <= 0,
        values_order(b, c) <= 0,
    ensures
        values_order(a, c) <= 0,
    decreases a.len(),
{
    if a.len() > 0 && b.len() > 0 && c.len() > 0 {
        lemma_value_order_transitive(a[0], b[0], c[0]);
        if value_order(a[0], b[0]) == 0 && value_order(b[0], c[0]) == 0 {
            lemma_values_order_transitive(a.skip(1), b.skip(1), c.skip(1));
        }
    }
}

fn order_value(a: &Option<String>, b: &Option<String>) -> (order: i32)
    ensures
        order == value_order(opt_view(*a), opt_view(*b)),
{
    match (a, b) {
        (None, None) => 0,
        (None, Some(_)) => -1,
        (Some(_), None) => 1,
        (Some(x), Some(y)) => order_text(x.as_str(), y.as_str()),
    }
}

/// How the list `a` stands to the list `b`.
pub fn order_values(a: &Vec<Option<String>>, b: &Vec<Option<String>>) -> (order: i32)
    ensures
        order == values_order(opt_views(a@), opt_views(b@)),
{
    let ghost av = opt_views(a@);
    let ghost bv = opt_views(b@);
    let mut i: usize = 0;
    assert(av.skip(0) =~= av);
    assert(bv.skip(0) =~= bv);
    while i < a.len() && i < b.len()
        invariant
            i <= a@.len(),
            i <= b@.len(),
            av == opt_views(a@),
            bv == opt_views(b@),
            values_order(av, bv) == values_order(av.skip(i as int), bv.skip(i as int)),
        decreases a@.len() - i,
    {
        let first: i32 = order_value(&a[i], &b[i]);
        if first != 0 {
            return first;
        }
        assert(av.skip(i as int).skip(1) =~= av.skip(i + 1));
        assert(bv.skip(i as int).skip(1) =~= bv.skip(i + 1));
        i = i + 1;
    }
    if i < b.len() {
        -1
    } else if i < a.len() {
        1
    } else {
        0
    }
}

/// Whether `chosen` are the places of the wanted items, in their order.
pub open spec fn selects<A>(items: Seq<A>, wanted: spec_fn(A) -> bool, chosen: Seq<int>) -> bool {
    &&& ascending(chosen)
    &&& forall|k: int|
        0 <= k < chosen.len() ==> 0 <= #[trigger] chosen[k] < items.len() && wanted(
            items[chosen[k]],
        )
    &&& forall|i: int| 0 <= i < items.len() && wanted(#[trigger] items[i]) ==> chosen.contains(i)
}

/// A filter keeps the wanted items, all of them and no other, in their order.
pub proof fn lemma_filter_selects<A>(items: Seq<A>, wanted: spec_fn(A) -> bool) -> (chosen: Seq<
    int,
>)
    ensures
        selects(items, wanted, chosen),
        items.filter(wanted).len() == chosen.len(),
        forall|k: int|
            0 <= k < chosen.len() ==> items.filter(wanted)[k] == items[#[trigger] chosen[k]],
    decreases items.len(),
{
    reveal(Seq::filter);
    if items.len() == 0 {
        Seq::empty()
    } else {
        let rest = items.drop_last();
        let n = items.len() - 1;
        let before = lemma_filter_selects(rest, wanted);
        if wanted(items[n]) {
            let chosen = before.push(n);
            assert forall|i: int| 0 <= i < items.len() && wanted(
                #[trigger] items[i],
            ) implies chosen.contains(i) by {
                if i < n {
                    assert(rest[i] == items[i]);
                    let k = choose|k: int| 0 <= k < before.len() && before[k] == i;
                    assert(chosen[k] == i);
                } else {
                    assert(chosen[before.len() as int] == i);
                }
            }
            assert forall|k: int| 0 <= k < chosen.len() implies items.filter(wanted)[k]
                == items[#[trigger] chosen[k]] && 0 <= chosen[k] < items.len() && wanted(
                items[chosen[k]],
            ) by {
                if k < before.len() {
                    assert(chosen[k] == before[k]);
                    assert(rest[before[k]] == items[before[k]]);
                    assert(rest.filter(wanted)[k] == rest[before[k]]);
                }
            }
            chosen
        } else {
            assert forall|k: int| 0 <= k < before.len() implies items.filter(wanted)[k]
                == items[#[trigger] before[k]] && 0 <= before[k] < items.len() && wanted(
                items[before[k]],
            ) by {
                assert(rest[before[k]] == items[before[k]]);
            }
            assert forall|i: int| 0 <= i < items.len() && wanted(
                #[trigger] items[i],
            ) implies before.contains(i) by {
                assert(rest[i] == items[i]);
            }
            before
        }
    }
}

/// Texts stand in the order of a dictionary: the first character in which they differ
/// decides, and a text stands in front of the longer ones that start with it.
pub proof fn lemma_dictionary_order(a: Seq<char>, b: Seq<char>)
    ensures
        text_order(a, b) < 0 <==> exists|n: int|
            {
                &&& 0 <= n <= a.len() && n < b.len()
                &&& #[trigger] a.take(n) == b.take(n)
                &&& n == a.len() || a[n] < b[n]
            },
        text_order(a, b) == 0 <==> a == b,
    decreases a.len(),
{
    lemma_text_order(a, b);
    if a.len() > 0 && b.len() > 0 && a[0] == b[0] {
        let (p, q) = (a.skip(1), b.skip(1));
        lemma_dictionary_order(p, q);
        if text_order(p, q) < 0 {
            let n = choose|n: int|
                {
                    &&& 0 <= n <= p.len() && n < q.len()
                    &&& #[trigger] p.take(n) == q.take(n)
                    &&& n == p.len() || p[n] < q[n]
                };
            assert(a.take(n + 1) =~= seq![a[0]] + p.take(n));
            assert(b.take(n + 1) =~= seq![b[0]] + q.take(n));
            assert(a.take(n + 1) == b.take(n + 1));
        }
        if exists|n: int|
            {
                &&& 0 <= n <= a.len() && n < b.len()
                &&& #[trigger] a.take(n) == b.take(n)
                &&& n == a.len() || a[n] < b[n]
            } {
            let n = choose|n: int|
                {
                    &&& 0 <= n <= a.len() && n < b.len()
                    &&& #[trigger] a.take(n) == b.take(n)
                    &&& n == a.len() || a[n] < b[n]
                };
            assert(n > 0);
            assert(p.take(n - 1) =~= a.take(n).skip(1));
            assert(q.take(n - 1) =~= b.take(n).skip(1));
            assert(p.take(n - 1) == q.take(n - 1));
            assert(n < a.len() ==> p[n - 1] == a[n]);
            assert(q[n - 1] == b[n]);
        }
    } else if a.len() == 0 {
        if b.len() > 0 {
            assert(a.take(0) =~= b.take(0));
        }
    } else if b.len() > 0 {
        assert(a.take(0) =~= b.take(0));
        assert forall|n: int|
            0 <= n <= a.len() && n < b.len() && #[trigger] a.take(n) == b.take(n) implies n == 0 by {
            if n > 0 {
                assert(a.take(n)[0] == a[0]);
                assert(b.take(n)[0] == b[0]);
            }
        }
    }
}

/// A value that is absent stands in front of those that are there, and these stand in the
/// order of a dictionary. Lists stand in the order of the first values in which they
/// differ, and a list in front of the longer ones that start with it.
pub proof fn lemma_lists_of_values(
    a: Seq<Option<Seq<char>>>,
    b: Seq<Option<Seq<char>>>,
    x: Seq<char>,
    y: Seq<char>,
)
    ensures
        value_order(None, Some(x)) < 0,
        value_order(Some(x), Some(y)) == text_order(x, y),
        values_order(a, b) < 0 <==> exists|n: int|
            {
                &&& 0 <= n <= a.len() && n < b.len()
                &&& #[trigger] a.take(n) == b.take(n)
                &&& n == a.len() || value_order(a[n], b[n]) < 0
            },
    decreases a.len(),
{
    lemma_values_order(a, b);
    if a.len() > 0 && b.len() > 0 {
        lemma_value_order(a[0], b[0]);
    }
    if a.len() > 0 && b.len() > 0 && a[0] == b[0] {
        let (p, q) = (a.skip(1), b.skip(1));
        lemma_lists_of_values(p, q, x, y);
        if values_order(p, q) < 0 {
            let n = choose|n: int|
                {
                    &&& 0 <= n <= p.len() && n < q.len()
                    &&& #[trigger] p.take(n) == q.take(n)
                    &&& n == p.len() || value_order(p[n], q[n]) < 0
                };
            assert(a.take(n + 1) =~= seq![a[0]] + p.take(n));
            assert(b.take(n + 1) =~= seq![b[0]] + q.take(n));
            assert(a.take(n + 1) == b.take(n + 1));
        }
        if exists|n: int|
            {
                &&& 0 <= n <= a.len() && n < b.len()
                &&& #[trigger] a.take(n) == b.take(n)
                &&& n == a.len() || value_order(a[n], b[n]) < 0
            } {
            let n = choose|n: int|
                {
                    &&& 0 <= n <= a.len() && n < b.len()
                    &&& #[trigger] a.take(n) == b.take(n)
                    &&& n == a.len() || value_order(a[n], b[n]) < 0
                };
            assert(n > 0);
            assert(p.take(n - 1) =~= a.take(n).skip(1));
            assert(q.take(n - 1) =~= b.take(n).skip(1));
            assert(p.take(n - 1) == q.take(n - 1));
            assert(n < a.len() ==> p[n - 1] == a[n]);
            assert(q[n - 1] == b[n]);
        }
    } else if a.len() == 0 {
        if b.len() > 0 {
            assert(a.take(0) =~= b.take(0));
        }
    } else if b.len() > 0 {
        assert(a.take(0) =~= b.take(0));
        assert forall|n: int|
            0 <= n <= a.len() && n < b.len() && #[trigger] a.take(n) == b.take(n) implies n == 0 by {
            if n > 0 {
                assert(a.take(n)[0] == a[0]);
                assert(b.take(n)[0] == b[0]);
            }
        }
    }
}

} // verus!
