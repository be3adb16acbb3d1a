//! The partitioning of a table.

use vstd::prelude::*;

use crate::text::views;

verus! {

/// One key of a partition specification.
#[derive(Debug, Clone, PartialEq, Eq)]
pub struct PartitionColumn {
    pub partition_key_index: i32,
    pub column_id: i64,
    pub transform: String,
}

/// The live partition specification of a table.
#[derive(Debug, Clone, PartialEq, Eq)]
pub struct PartitionSpec {
    pub partition_id: i64,
    /// The keys in their order.
    pub columns: Vec<PartitionColumn>,
    /// Whether files can be pruned by it.
    pub prune_safe: bool,
}

/// Whether the `k`th column is the first with that id.
pub open spec fn is_first_id(column_ids: Seq<i64>, id: i64, k: int) -> bool {
    &&& 0 <= k < column_ids.len()
    &&& column_ids[k] == id
    &&& forall|j: int| 0 <= j < k ==> #[trigger] column_ids[j] != id
}

/// Whether all keys are columns that the table has.
pub open spec fn has_all_keys(columns: Seq<PartitionColumn>, column_ids: Seq<i64>) -> bool {
    forall|i: int|
        0 <= i < columns.len() ==> column_ids.contains((#[trigger] columns[i]).column_id)
}

/// Whether `out` are the names of the keys of the specification `partition_id`, by
/// which the directory of a file of it is called. There are none where that is not
/// the live specification, whose order of keys may be another, or where a key is a
/// column that is gone.
pub open spec fn is_path_names(
    live: Option<PartitionSpec>,
    partition_id: i64,
    column_ids: Seq<i64>,
    column_names: Seq<Seq<char>>,
    out: Seq<Seq<char>>,
) -> bool {
    if live matches Some(spec) && spec.partition_id == partition_id && has_all_keys(
        spec.columns@,
        column_ids,
    ) {
        &&& out.len() == live->0.columns@.len()
        &&& forall|i: int, k: int|
            0 <= i < out.len() && #[trigger] is_first_id(
                column_ids,
                live->0.columns@[i].column_id,
                k,
            ) ==> out[i] == column_names[k]
    } else {
        out.len() == 0
    }
}

fn find_id(column_ids: &Vec<i64>, id: i64) -> (found: Option<usize>)
    ensures
        match found {
            Some(k) => is_first_id(column_ids@, id, k as int),
            None => !column_ids@.contains(id),
        },
{
    let mut k: usize = 0;
    while k < column_ids.len()
        invariant
            k <= column_ids@.len(),
            forall|j: int| 0 <= j < k ==> #[trigger] column_ids@[j] != id,
        decreases column_ids@.len() - k,
    {
        if column_ids[k] == id {
            return Some(k);
        }
        k = k + 1;
    }
    None
}

/// The names of the keys of the specification `partition_id` in their order. The
/// columns of the table come with their ids and names.
pub fn partition_path_names(
    live: &Option<PartitionSpec>,
    partition_id: i64,
    column_ids: &Vec<i64>,
    column_names: &Vec<String>,
) -> (out: Vec<String>)
    requires
        column_ids@.len() <= column_names@.len(),
    ensures
        is_path_names(*live, partition_id, column_ids@, views(column_names@), views(out@)),
{
    let spec = match live {
        Some(spec) => spec,
        None => return Vec::new(),
    };
    if spec.partition_id != partition_id {
        return Vec::new();
    }
    let mut out: Vec<String> = Vec::new();
    let mut i: usize = 0;
    while i < spec.columns.len()
        invariant
            *live == Some(*spec),
            spec.partition_id == partition_id,
            column_ids@.len() <= column_names@.len(),
            i <= spec.columns@.len(),
            out@.len() == i,
            forall|j: int|
                0 <= j < i ==> column_ids@.contains((#[trigger] spec.columns@[j]).column_id),
            forall|j: int, k: int|
                0 <= j < i && #[trigger] is_first_id(
                    column_ids@,
                    spec.columns@[j].column_id,
                    k,
                ) ==> out@[j]@ == column_names@[k]@,
        decreases spec.columns@.len() - i,
    {
        match find_id(column_ids, spec.columns[i].column_id) {
            Some(k) => {
                out.push(column_names[k].clone());
            },
            None => {
                assert(!has_all_keys(spec.columns@, column_ids@));
                return Vec::new();
            },
        }
        i = i + 1;
    }
    out
}

/// The directory of a file is called by the keys of the live specification, in their
/// order, each by the name of the column with its id. It has no such names where the
/// file follows another specification or where a column is gone.
pub proof fn lemma_path_names(
    live: Option<PartitionSpec>,
    partition_id: i64,
    column_ids: Seq<i64>,
    column_names: Seq<Seq<char>>,
    out: Seq<Seq<char>>,
    i: int,
)
    requires
        is_path_names(live, partition_id, column_ids, column_names, out),
    ensures
        out.len() > 0 ==> live is Some && live->0.partition_id == partition_id,
        live matches Some(spec) ==> (if spec.partition_id == partition_id && (forall|c: int|
            0 <= c < spec.columns@.len() ==> exists|k: int|
                0 <= k < column_ids.len() && #[trigger] column_ids[k] == (
                #[trigger] spec.columns@[c]).column_id) {
            out.len() == spec.columns@.len() && (0 <= i < out.len() ==> exists|k: int|
                0 <= k < column_ids.len() && #[trigger] column_ids[k] == spec.columns@[i].column_id
                    && out[i] == column_names[k])
        } else {
            out.len() == 0
        }),
{
    if let Some(spec) = live {
        if has_all_keys(spec.columns@, column_ids) {
            assert forall|c: int| 0 <= c < spec.columns@.len() implies exists|k: int|
                0 <= k < column_ids.len() && #[trigger] column_ids[k] == (
                #[trigger] spec.columns@[c]).column_id by {
                let k = choose|k: int|
                    0 <= k < column_ids.len() && column_ids[k] == spec.columns@[c].column_id;
                assert(column_ids[k] == spec.columns@[c].column_id);
            }
            if 0 <= i < spec.columns@.len() && spec.partition_id == partition_id {
                let k = lemma_first_id(column_ids, spec.columns@[i].column_id);
                assert(is_first_id(column_ids, spec.columns@[i].column_id, k));
                assert(out[i] == column_names[k]);
            }
        } else {
            let c = choose|c: int|
                0 <= c < spec.columns@.len() && !column_ids.contains(
                    (#[trigger] spec.columns@[c]).column_id,
                );
            assert(forall|k: int|
                0 <= k < column_ids.len() ==> #[trigger] column_ids[k] != spec.columns@[c].column_id);
        }
    }
}

proof fn lemma_first_id(column_ids: Seq<i64>, id: i64) -> (k: int)
    requires
        column_ids.contains(id),
    ensures
        0 <= k < column_ids.len(),
        column_ids[k] == id,
        forall|j: int| 0 <= j < k ==> #[trigger] column_ids[j] != id,
    decreases column_ids.len(),
{
    let n = column_ids.len() - 1;
    let rest = column_ids.drop_last();
    if rest.contains(id) {
        let k = lemma_first_id(rest, id);
        assert(forall|j: int| 0 <= j < k ==> #[trigger] column_ids[j] == rest[j]);
        k
    } else {
        assert forall|j: int| 0 <= j < n implies #[trigger] column_ids[j] != id by {
            assert(rest[j] == column_ids[j]);
        }
        n
    }
}

} // verus!
