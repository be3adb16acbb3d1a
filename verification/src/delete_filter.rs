//! Dropping deleted rows from the scan of a data file.
//!
//! A row is deleted by its physical position in the file. The position comes with
//! each row, so it does not matter in which order, in which batches or how much
//! filtered the rows arrive.

use std::collections::HashSet;
use vstd::prelude::*;
use vstd::std_specs::iter::IteratorSpec;
use crate::error::{internal, DuckLakeError};
use crate::order::positions;
use crate::text::{nat_text, push_u64};

verus! {

broadcast use vstd::std_specs::hash::group_hash_axioms;

/// A figure of a scan, and how far it can be relied on.
#[derive(Debug, Clone, Copy, PartialEq, Eq, Structural)]
pub enum Precision {
    Exact(usize),
    Inexact(usize),
    Absent,
}

impl Precision {
    /// The same figure as an estimate.
    pub open spec fn estimate(self) -> Precision {
        match self {
            Precision::Exact(value) => Precision::Inexact(value),
            _ => self,
        }
    }

    /// The same figure as an estimate.
    pub fn to_inexact(self) -> (out: Precision)
        ensures
            out == self.estimate(),
    {
        match self {
            Precision::Exact(value) => Precision::Inexact(value),
            _ => self,
        }
    }
}

/// The filter on the rows of one file.
#[derive(Debug)]
pub struct DeleteFilterExec {
    pub file_path: String,
    /// The positions of the deleted rows.
    pub deleted_positions: HashSet<i64>,
    /// Which column of the scan holds the position of a row.
    pub pos_index: usize,
    /// How many rows the catalog says the file has.
    pub max_row_count: Option<usize>,
}

/// Whether a row at `position` is one of the first `rows` of a file.
pub open spec fn in_range(position: i64, rows: int) -> bool {
    0 <= position < rows
}

/// The deleted positions among the first `rows`.
pub open spec fn deleted_among(deleted: Set<i64>, rows: int) -> Set<i64> {
    deleted.filter(|position: i64| in_range(position, rows))
}

/// Whether a row is handed on: it is not deleted, and the catalog knows it.
pub open spec fn is_live(deleted: Set<i64>, max_row_count: Option<usize>, position: i64) -> bool {
    &&& max_row_count matches Some(rows) ==> in_range(position, rows as int)
    &&& !deleted.contains(position)
}

/// The error on a position column that the scan does not have.
pub open spec fn position_index_text(pos_index: usize, columns: usize) -> Seq<char> {
    "DeleteFilterExec: position index "@ + nat_text(pos_index as nat)
        + " is out of range for an input of "@ + nat_text(columns as nat) + " columns"@
}

impl DeleteFilterExec {
    /// The filter on a scan of `columns` columns. `position_field` says whether the
    /// column at `pos_index` holds positions, and if not, why.
    pub fn try_new(
        columns: usize,
        file_path: String,
        deleted_positions: HashSet<i64>,
        pos_index: usize,
        max_row_count: Option<usize>,
        position_field: Result<(), DuckLakeError>,
    ) -> (result: Result<Self, DuckLakeError>)
        ensures
            if pos_index >= columns {
                internal(result, position_index_text(pos_index, columns))
            } else {
                match position_field {
                    Err(error) => result == Err::<Self, DuckLakeError>(error),
                    Ok(_) => result == Ok::<Self, DuckLakeError>(
                        DeleteFilterExec {
                            file_path,
                            deleted_positions,
                            pos_index,
                            max_row_count,
                        },
                    ),
                }
            },
    {
        if pos_index >= columns {
            let mut message = "DeleteFilterExec: position index ".to_string();
            push_u64(&mut message, pos_index as u64);
            message.append(" is out of range for an input of ");
            push_u64(&mut message, columns as u64);
            message.append(" columns");
            return Err(DuckLakeError::Internal(message));
        }
        match position_field {
            Err(error) => Err(error),
            Ok(_) => Ok(
                DeleteFilterExec { file_path, deleted_positions, pos_index, max_row_count },
            ),
        }
    }

    /// How the filter is shown in a plan.
    pub fn display(&self) -> (out: String)
        ensures
            out@ == "DeleteFilterExec: file="@ + self.file_path@ + ", deletes="@ + nat_text(
                self.deleted_positions@.len(),
            ),
    {
        let mut out = "DeleteFilterExec: file=".to_string();
        out.append(self.file_path.as_str());
        out.append(", deletes=");
        push_u64(&mut out, self.deleted_positions.len() as u64);
        out
    }

    /// How many of the deleted positions name one of the first `rows` rows. Others
    /// can be there: one delete file may serve several data files.
    pub fn deleted_in_range(&self, rows: usize) -> (count: usize)
        ensures
            count == deleted_among(self.deleted_positions@, rows as int).len(),
            count <= rows,
    {
        let ghost deleted = self.deleted_positions@;
        let ghost all = vstd::std_specs::hash::spec_hash_keys_iter(
            &self.deleted_positions,
        ).remaining().unref();
        let mut count: usize = 0;
        let length: usize = self.deleted_positions.len();
        proof {
            assert(all.take(0).to_set() =~= Set::empty());
            assert(deleted_among(all.take(0).to_set(), rows as int) =~= Set::empty());
        }
        for position in it: self.deleted_positions.iter()
            invariant
                it.seq().unref() == all,
                it.seq().no_duplicates(),
                all.no_duplicates(),
                all.len() == length,
                count <= it.index() <= length,
                count == deleted_among(all.take(it.index() as int).to_set(), rows as int).len(),
                deleted_among(all.take(it.index() as int).to_set(), rows as int).finite(),
        {
            proof {
                lemma_next_position(all, it.index() as int, rows as int);
                assert(all[it.index() as int] == *position);
            }
            if *position >= 0 && (*position as u64) < rows as u64 {
                count = count + 1;
            }
        }
        proof {
            assert(all.take(all.len() as int) =~= all);
            lemma_in_range_bound(deleted, rows as nat);
        }
        count
    }

    /// The statistics of the rows that are left, from the row count and the byte
    /// size of the rows that come in: of the whole file, or of one partition of it.
    /// A deleted position belongs to the file, not to any one partition. Nothing is
    /// known of how wide a deleted row was, nor of the bounds of the columns.
    pub fn statistics_from_inputs(
        &self,
        num_rows: Precision,
        total_byte_size: Precision,
        of_partition: bool,
    ) -> (out: (Precision, Precision))
        ensures
            out.0 == (if of_partition {
                num_rows.estimate()
            } else {
                match num_rows {
                    Precision::Exact(rows) => Precision::Exact(
                        (rows - deleted_among(self.deleted_positions@, rows as int).len()) as usize,
                    ),
                    _ => num_rows,
                }
            }),
            out.1 == total_byte_size.estimate(),
    {
        let left = if of_partition {
            num_rows.to_inexact()
        } else {
            match num_rows {
                Precision::Exact(rows) => Precision::Exact(rows - self.deleted_in_range(rows)),
                other => other.to_inexact(),
            }
        };
        (left, total_byte_size.to_inexact())
    }

    /// Whether every row of every batch is handed on.
    pub fn drops_nothing(&self) -> (nothing: bool)
        ensures
            nothing == (self.deleted_positions@.is_empty() && self.max_row_count is None),
            nothing ==> forall|position: i64| #[trigger]
                is_live(self.deleted_positions@, self.max_row_count, position),
    {
        self.deleted_positions.is_empty() && self.max_row_count.is_none()
    }

    /// Which rows of a batch are handed on, by the positions of all of them; `None`
    /// where every row is.
    pub fn filter_batch(&self, batch: &Vec<i64>) -> (kept: Option<Vec<u32>>)
        requires
            batch@.len() <= u32::MAX,
        ensures
            match kept {
                Some(rows) => {
                    &&& rows@.map_values(|row: u32| row as int) == positions(batch@.len()).filter(
                        |row: int|
                            is_live(self.deleted_positions@, self.max_row_count, batch@[row]),
                    )
                    &&& rows@.len() < batch@.len()
                },
                None => forall|row: int|
                    0 <= row < batch@.len() ==> is_live(
                        self.deleted_positions@,
                        self.max_row_count,
                        #[trigger] batch@[row],
                    ),
            },
    {
        if self.drops_nothing() {
            return None;
        }
        let ghost live = |row: int|
            is_live(self.deleted_positions@, self.max_row_count, batch@[row]);
        let mut rows: Vec<u32> = Vec::new();
        let mut i: usize = 0;
        reveal(Seq::filter);
        assert(positions(0).filter(live) =~= Seq::empty());
        while i < batch.len()
            invariant
                i <= batch@.len() <= u32::MAX,
                live == (|row: int|
                    is_live(self.deleted_positions@, self.max_row_count, batch@[row])),
                rows@.map_values(|row: u32| row as int) == positions(i as nat).filter(live),
                rows@.len() <= i,
                rows@.len() == i <==> forall|row: int|
                    0 <= row < i ==> is_live(
                        self.deleted_positions@,
                        self.max_row_count,
                        #[trigger] batch@[row],
                    ),
            decreases batch@.len() - i,
        {
            let position: i64 = batch[i];
            proof {
                reveal(Seq::filter);
                let next = positions((i + 1) as nat);
                assert(next.drop_last() =~= positions(i as nat));
                assert(next.last() == i);
                assert(live(i as int) == is_live(
                    self.deleted_positions@,
                    self.max_row_count,
                    position,
                ));
            }
            let beyond = match self.max_row_count {
                Some(max) => position < 0 || position as u64 >= max as u64,
                None => false,
            };
            let ghost before = rows@;
            if !beyond && !self.deleted_positions.contains(&position) {
                rows.push(i as u32);
                proof {
                    assert(rows@.map_values(|row: u32| row as int) =~= before.map_values(
                        |row: u32| row as int,
                    ).push(i as int));
                }
            }
            i = i + 1;
        }
        if rows.len() == batch.len() {
            None
        } else {
            Some(rows)
        }
    }
}

/// One more position of a set that is walked.
proof fn lemma_next_position(all: Seq<i64>, n: int, rows: int)
    requires
        0 <= n < all.len(),
        all.no_duplicates(),
        deleted_among(all.take(n).to_set(), rows).finite(),
    ensures
        deleted_among(all.take(n + 1).to_set(), rows).finite(),
        deleted_among(all.take(n + 1).to_set(), rows).len() == deleted_among(
            all.take(n).to_set(),
            rows,
        ).len() + if in_range(all[n], rows) {
            1int
        } else {
            0int
        },
{
    let (earlier, later) = (all.take(n), all.take(n + 1));
    let (before, after) = (earlier.to_set(), later.to_set());
    assert forall|x: i64| after.contains(x) == before.insert(all[n]).contains(x) by {
        if after.contains(x) {
            let k = choose|k: int| 0 <= k < later.len() && later[k] == x;
            if k < n {
                assert(earlier[k] == x);
            }
        }
        if before.contains(x) {
            let k = choose|k: int| 0 <= k < earlier.len() && earlier[k] == x;
            assert(later[k] == x);
        }
        assert(later[n] == all[n]);
    }
    assert(after =~= before.insert(all[n]));
    if before.contains(all[n]) {
        let k = choose|k: int| 0 <= k < earlier.len() && earlier[k] == all[n];
        assert(all[k] == all[n]);
    }
    if in_range(all[n], rows) {
        assert(deleted_among(after, rows) =~= deleted_among(before, rows).insert(all[n]));
    } else {
        assert(deleted_among(after, rows) =~= deleted_among(before, rows));
    }
}

/// No more positions than rows are in range.
proof fn lemma_in_range_bound(deleted: Set<i64>, rows: nat)
    ensures
        deleted_among(deleted, rows as int).finite(),
        deleted_among(deleted, rows as int).len() <= rows,
    decreases rows,
{
    if rows == 0 {
        assert(deleted_among(deleted, 0) =~= Set::empty());
    } else {
        lemma_in_range_bound(deleted, (rows - 1) as nat);
        let below = deleted_among(deleted, rows - 1);
        if rows - 1 <= i64::MAX && deleted.contains((rows - 1) as i64) {
            assert(deleted_among(deleted, rows as int) =~= below.insert((rows - 1) as i64));
        } else {
            assert(deleted_among(deleted, rows as int) =~= below);
        }
    }
}

/// The rows of a scan that are handed on, by their positions.
pub open spec fn live_rows(
    scan: Seq<i64>,
    deleted: Set<i64>,
    max_row_count: Option<usize>,
) -> Seq<i64> {
    scan.filter(|position: i64| is_live(deleted, max_row_count, position))
}

/// Whether a scan reads each of the first `rows` rows of a file once, in any order.
pub open spec fn is_whole_scan(scan: Seq<i64>, rows: usize) -> bool {
    &&& scan.no_duplicates()
    &&& forall|position: i64| #[trigger]
        scan.contains(position) == in_range(position, rows as int)
}

/// The exact row count that the filter states is the number of rows that it hands
/// on: of a scan that reads every row of the file once, in whatever order, as many
/// are left as the row count says, less the deleted positions that are in range.
pub proof fn lemma_exact_row_count(
    scan: Seq<i64>,
    deleted: Set<i64>,
    max_row_count: Option<usize>,
    rows: usize,
)
    requires
        is_whole_scan(scan, rows),
        max_row_count matches Some(max) ==> rows <= max,
        rows <= i64::MAX,
    ensures
        live_rows(scan, deleted, max_row_count).len() == rows - deleted_among(
            deleted,
            rows as int,
        ).len(),
{
    let kept = live_rows(scan, deleted, max_row_count);
    let wanted = |position: i64| is_live(deleted, max_row_count, position);
    let gone = deleted_among(deleted, rows as int);
    let whole = scan.to_set();
    lemma_in_range_bound(deleted, rows as nat);
    lemma_filtered(scan, wanted);
    scan.unique_seq_to_set();
    kept.unique_seq_to_set();
    assert(whole =~= deleted_among(Set::full(), rows as int)) by {
        assert forall|position: i64|
            whole.contains(position) == in_range(position, rows as int) by {
            assert(scan.contains(position) == in_range(position, rows as int));
        }
    }
    lemma_in_range_count(rows as nat);
    assert forall|position: i64| kept.to_set().contains(position) == (whole.contains(position)
        && !gone.contains(position)) by {
        assert(kept.contains(position) == (scan.contains(position) && wanted(position)));
        assert(scan.contains(position) == in_range(position, rows as int));
    }
    assert(kept.to_set() + gone =~= whole);
    vstd::set_lib::lemma_set_disjoint_lens(kept.to_set(), gone);
}

/// The filter commutes with any other filter on the rows: which rows are left does
/// not depend on whether deleted rows are dropped before or after a predicate is
/// applied, because a row keeps its position.
pub proof fn lemma_filters_commute(
    scan: Seq<i64>,
    deleted: Set<i64>,
    max_row_count: Option<usize>,
    wanted: spec_fn(i64) -> bool,
)
    ensures
        live_rows(scan.filter(wanted), deleted, max_row_count) == live_rows(
            scan,
            deleted,
            max_row_count,
        ).filter(wanted),
    decreases scan.len(),
{
    reveal(Seq::filter);
    let live = |position: i64| is_live(deleted, max_row_count, position);
    if scan.len() > 0 {
        lemma_filters_commute(scan.drop_last(), deleted, max_row_count, wanted);
        let last = scan.last();
        let (some, rest) = (
            scan.drop_last().filter(wanted),
            live_rows(scan.drop_last(), deleted, max_row_count),
        );
        assert(some.push(last).drop_last() =~= some);
        assert(rest.push(last).drop_last() =~= rest);
        assert(live(last) == is_live(deleted, max_row_count, last));
    }
}

/// What a filter leaves of a sequence without duplicates.
proof fn lemma_filtered(items: Seq<i64>, wanted: spec_fn(i64) -> bool)
    requires
        items.no_duplicates(),
    ensures
        items.filter(wanted).no_duplicates(),
        forall|x: i64| #[trigger]
            items.filter(wanted).contains(x) == (items.contains(x) && wanted(x)),
    decreases items.len(),
{
    reveal(Seq::filter);
    if items.len() > 0 {
        let (rest, last) = (items.drop_last(), items.last());
        lemma_filtered(rest, wanted);
        let kept = rest.filter(wanted);
        assert(items =~= rest.push(last));
        assert forall|x: i64| #[trigger]
            items.filter(wanted).contains(x) == (items.contains(x) && wanted(x)) by {
            assert(kept.contains(x) == (rest.contains(x) && wanted(x)));
            if items.contains(x) && x != last {
                let k = choose|k: int| 0 <= k < items.len() && items[k] == x;
                assert(rest[k] == x);
            }
            if rest.contains(x) {
                let k = choose|k: int| 0 <= k < rest.len() && rest[k] == x;
                assert(items[k] == x);
            }
            assert(items[items.len() - 1] == last);
            if wanted(last) {
                assert(kept.push(last)[kept.len() as int] == last);
                if kept.contains(x) {
                    let k = choose|k: int| 0 <= k < kept.len() && kept[k] == x;
                    assert(kept.push(last)[k] == x);
                }
            }
        }
        if wanted(last) {
            assert(!rest.contains(last)) by {
                if rest.contains(last) {
                    let k = choose|k: int| 0 <= k < rest.len() && rest[k] == last;
                    assert(items[k] == items[items.len() - 1]);
                }
            }
            assert(kept.contains(last) == (rest.contains(last) && wanted(last)));
            let all = kept.push(last);
            assert forall|i: int, j: int| 0 <= i < j < all.len() implies all[i] != all[j] by {
                if j == kept.len() && all[i] == last {
                    assert(kept[i] == last);
                    assert(kept.contains(last));
                }
            }
        }
    }
}

/// There are as many positions in range as rows.
proof fn lemma_in_range_count(rows: nat)
    requires
        rows <= i64::MAX,
    ensures
        deleted_among(Set::full(), rows as int).finite(),
        deleted_among(Set::full(), rows as int).len() == rows,
    decreases rows,
{
    if rows == 0 {
        assert(deleted_among(Set::full(), 0) =~= Set::empty());
    } else {
        lemma_in_range_count((rows - 1) as nat);
        assert(deleted_among(Set::full(), rows as int) =~= deleted_among(
            Set::full(),
            rows - 1,
        ).insert((rows - 1) as i64));
    }
}

/// A row is handed on if, and only if, no delete names it and the catalog knows of as
/// many rows: a position below the row count, where there is one.
pub proof fn lemma_rows_handed_on(
    deleted: Set<i64>,
    max_row_count: Option<usize>,
    position: i64,
    rows: int,
)
    ensures
        is_live(deleted, max_row_count, position) <==> !deleted.contains(position) && (
        max_row_count matches Some(max) ==> position >= 0 && position < max),
        deleted_among(deleted, rows).contains(position) <==> deleted.contains(position) && position
            >= 0 && position < rows,
{
}

/// Of a scan the rows that are left keep their order, and each is there as often as in
/// the scan.
pub proof fn lemma_live_rows(scan: Seq<i64>, deleted: Set<i64>, max_row_count: Option<usize>)
    ensures
        exists|chosen: Seq<int>|
            {
                &&& #[trigger] chosen.len() == live_rows(scan, deleted, max_row_count).len()
                &&& crate::order::ascending(chosen)
                &&& forall|k: int|
                    0 <= k < chosen.len() ==> 0 <= (#[trigger] chosen[k]) < scan.len() && live_rows(
                        scan,
                        deleted,
                        max_row_count,
                    )[k] == scan[chosen[k]] && !deleted.contains(scan[chosen[k]])
                &&& forall|i: int|
                    0 <= i < scan.len() && !deleted.contains(#[trigger] scan[i]) && (
                    max_row_count matches Some(max) ==> 0 <= scan[i] < max) ==> chosen.contains(i)
            },
{
    let wanted = |position: i64| is_live(deleted, max_row_count, position);
    let chosen = crate::order::lemma_filter_selects(scan, wanted);
    assert forall|i: int|
        0 <= i < scan.len() && !deleted.contains(#[trigger] scan[i]) && (
        max_row_count matches Some(max) ==> 0 <= scan[i] < max) implies chosen.contains(i) by {
        assert(wanted(scan[i]));
    }
    assert(chosen.len() == live_rows(scan, deleted, max_row_count).len());
}

/// A figure that becomes an estimate keeps its value, and one that is not known stays so.
pub proof fn lemma_estimates(figure: Precision)
    ensures
        figure.estimate() !is Exact,
        figure matches Precision::Exact(value) ==> figure.estimate() == Precision::Inexact(value),
        figure !is Exact ==> figure.estimate() == figure,
{
}

} // verus!
