//! Keeping predicates on float columns that may hold NaN out of a scan.
//!
//! The bounds that a Parquet file records of a float column leave NaN out, while a
//! query sorts NaN above every number. A predicate on such a column that reaches
//! the scan can skip rows that match it, so it is held back, unless the column is
//! known to hold no NaN.

use vstd::prelude::*;

use crate::inlined::contains_name;
use crate::order::{ints, positions, same_texts, sorted_distinct, strictly_sorted};
use crate::text::{join, joined, views};

verus! {

/// The barrier in front of a scan.
#[derive(Debug, Clone, PartialEq, Eq)]
pub struct NanPruningBarrierExec {
    /// The names of the columns that may hold NaN, in order.
    pub unsafe_columns: Vec<String>,
}

impl NanPruningBarrierExec {
    /// The columns are in order, each of them once.
    pub open spec fn wf(self) -> bool {
        strictly_sorted(views(self.unsafe_columns@))
    }

    /// Whether a column may hold NaN.
    pub open spec fn is_unsafe(self, name: Seq<char>) -> bool {
        views(self.unsafe_columns@).contains(name)
    }

    /// The barrier for the columns of these names.
    pub fn new(unsafe_columns: Vec<String>) -> (barrier: Self)
        ensures
            barrier.wf(),
            same_texts(views(barrier.unsafe_columns@), views(unsafe_columns@)),
    {
        NanPruningBarrierExec { unsafe_columns: sorted_distinct(unsafe_columns) }
    }

    /// How the barrier is shown in a plan.
    pub fn display(&self) -> (out: String)
        ensures
            out@ == "NanPruningBarrierExec: unsafe_columns=["@ + joined(
                views(self.unsafe_columns@),
                ", "@,
            ) + "]"@,
    {
        let columns = join(&self.unsafe_columns, ", ");
        let mut out = "NanPruningBarrierExec: unsafe_columns=[".to_string();
        out.append(columns.as_str());
        out.append("]");
        out
    }

    /// The columns of the scan that a predicate may refer to and still pass: all
    /// but those that may hold NaN.
    pub fn allowed_indices(&self, columns: &Vec<String>) -> (allowed: Vec<usize>)
        ensures
            ints(allowed@) == positions(columns@.len()).filter(
                |index: int| !self.is_unsafe(columns@[index]@),
            ),
    {
        let ghost is_safe = |index: int| !self.is_unsafe(columns@[index]@);
        let mut allowed: Vec<usize> = Vec::new();
        let mut i: usize = 0;
        reveal(Seq::filter);
        assert(positions(0).filter(is_safe) =~= Seq::empty());
        while i < columns.len()
            invariant
                is_safe == (|index: int| !self.is_unsafe(columns@[index]@)),
                i <= columns@.len(),
                ints(allowed@) == positions(i as nat).filter(is_safe),
            decreases columns@.len() - i,
        {
            let ghost was = allowed@;
            proof {
                reveal(Seq::filter);
                let next = positions((i + 1) as nat);
                assert(next.drop_last() =~= positions(i as nat));
                assert(next.last() == i);
                assert(is_safe(i as int) == !self.is_unsafe(columns@[i as int]@));
            }
            if !contains_name(&self.unsafe_columns, columns[i].as_str()) {
                allowed.push(i);
                assert(ints(allowed@) =~= ints(was).push(i as int));
            }
            i = i + 1;
        }
        allowed
    }

    /// Whether a sort order must not reach the scan: `keys` are the columns that
    /// each of its keys refers to. The scan would put files and row groups in order
    /// by the same bounds.
    pub fn blocks_sort(&self, keys: &Vec<Vec<String>>) -> (blocked: bool)
        ensures
            blocked == exists|i: int, j: int|
                0 <= i < keys@.len() && 0 <= j < keys@[i]@.len() && self.is_unsafe(
                    #[trigger] keys@[i]@[j]@,
                ),
    {
        let mut i: usize = 0;
        while i < keys.len()
            invariant
                i <= keys@.len(),
                forall|k: int, j: int|
                    0 <= k < i && 0 <= j < keys@[k]@.len() ==> !self.is_unsafe(
                        #[trigger] keys@[k]@[j]@,
                    ),
            decreases keys@.len() - i,
        {
            let columns = &keys[i];
            let mut j: usize = 0;
            while j < columns.len()
                invariant
                    i < keys@.len(),
                    *columns == keys@[i as int],
                    j <= columns@.len(),
                    forall|l: int|
                        0 <= l < j ==> !self.is_unsafe(#[trigger] keys@[i as int]@[l]@),
                decreases columns@.len() - j,
            {
                if contains_name(&self.unsafe_columns, columns[j].as_str()) {
                    assert(self.is_unsafe(keys@[i as int]@[j as int]@));
                    return true;
                }
                j = j + 1;
            }
            i = i + 1;
        }
        false
    }
}

/// A predicate that passes the barrier refers to no column that may hold NaN, and
/// one that is held back refers to such a column: a predicate passes where every
/// column of the scan that it refers to is among the allowed ones.
pub proof fn lemma_passing_predicates_are_safe(
    barrier: NanPruningBarrierExec,
    columns: Seq<String>,
    referenced: Set<int>,
)
    requires
        forall|index: int| referenced.contains(index) ==> 0 <= index < columns.len(),
    ensures
        (forall|index: int| #[trigger]
            referenced.contains(index) ==> positions(columns.len()).filter(
                |i: int| !barrier.is_unsafe(columns[i]@),
            ).contains(index)) <==> (forall|index: int| #[trigger]
            referenced.contains(index) ==> !barrier.is_unsafe(columns[index]@)),
{
    let is_safe = |i: int| !barrier.is_unsafe(columns[i]@);
    let allowed = positions(columns.len()).filter(is_safe);
    assert forall|index: int| #[trigger] referenced.contains(index) implies allowed.contains(index)
        == !barrier.is_unsafe(columns[index]@) by {
        assert(positions(columns.len())[index] == index);
        assert(is_safe(index) == !barrier.is_unsafe(columns[index]@));
        if allowed.contains(index) {
            let k = choose|k: int| 0 <= k < allowed.len() && allowed[k] == index;
            positions(columns.len()).lemma_filter_pred(is_safe, k);
        }
        if is_safe(index) {
            positions(columns.len()).lemma_filter_contains(is_safe, index);
        }
    }
}

/// A column is kept from pruning if, and only if, it is one of those that were named.
pub proof fn lemma_named_columns(barrier: NanPruningBarrierExec, name: Seq<char>)
    ensures
        barrier.is_unsafe(name) <==> exists|i: int|
            0 <= i < barrier.unsafe_columns@.len() && (#[trigger] barrier.unsafe_columns@[i])@
                == name,
{
    let columns = views(barrier.unsafe_columns@);
    if columns.contains(name) {
        let i = choose|i: int| 0 <= i < columns.len() && columns[i] == name;
        assert(barrier.unsafe_columns@[i]@ == name);
    }
    if exists|i: int|
        0 <= i < barrier.unsafe_columns@.len() && (#[trigger] barrier.unsafe_columns@[i])@ == name {
        let i = choose|i: int|
            0 <= i < barrier.unsafe_columns@.len() && (#[trigger] barrier.unsafe_columns@[i])@
                == name;
        assert(columns[i] == name);
    }
}

} // verus!
