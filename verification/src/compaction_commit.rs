//! What a compaction writes and commits, once its files are chosen.

use vstd::prelude::*;
use crate::compaction::{bins_view, is_merge_candidate, is_sound_bin, lemma_merge_bins, merge_bins,
    merge_sequence, partition_key, partition_key_view, partition_value_pairs, CompactionResult,
    MergeOptions};
use crate::error::{internal, invalid_config, DuckLakeError};
use crate::metadata::DuckLakeTableFile;
use crate::order::{ascending, ints, opt_views, positions};

verus! {

/// A source file that a commit takes out of the table, with the delete file
/// that goes with it.
#[derive(Debug, Clone, Copy, PartialEq, Eq)]
pub struct CompactionSourceFile {
    pub data_file_id: i64,
    pub delete_file_id: Option<i64>,
}

/// What becomes of the source files.
#[derive(Debug, Clone, Copy, PartialEq, Eq)]
pub enum SourceRetirement {
    /// The outputs serve every snapshot that the sources served.
    Remove,
    /// The sources go on serving the snapshots before the compaction.
    Retire,
}

/// A file that a commit adds.
#[derive(Debug, Clone, PartialEq, Eq)]
pub struct CompactionOutputFile {
    /// Which of the written files this is, by the position of what it replaces.
    pub replaces: usize,
    pub record_count: i64,
    pub partial_max: Option<i64>,
    pub begin_snapshot: Option<i64>,
    pub partition_id: Option<i64>,
    pub partition_values: Vec<(i32, Option<String>)>,
}

/// One atomic change of a table's files.
#[derive(Debug, Clone, PartialEq, Eq)]
pub struct CompactionCommit {
    pub sources: Vec<CompactionSourceFile>,
    pub outputs: Vec<CompactionOutputFile>,
    pub retirement: SourceRetirement,
    pub result: CompactionResult,
}

/// The name of the schema a compaction writes to, for a table that can be
/// written.
pub fn writable_schema(
    operation: &str,
    has_writer: bool,
    schema_name: Option<String>,
) -> (result: Result<String, DuckLakeError>)
    ensures
        !has_writer ==> invalid_config(
            result,
            operation@ + ": table is read-only; open the catalog with a writer"@,
        ),
        has_writer && schema_name is None ==> internal(
            result,
            "writable table has no schema name"@,
        ),
        has_writer && schema_name is Some ==> result == Ok::<String, DuckLakeError>(
            schema_name->0,
        ),
{
    if !has_writer {
        let mut message = operation.to_string();
        message.append(": table is read-only; open the catalog with a writer");
        return Err(DuckLakeError::InvalidConfig(message));
    }
    match schema_name {
        Some(name) => Ok(name),
        None => Err(DuckLakeError::Internal("writable table has no schema name".to_string())),
    }
}

/// The bins that are not to be left alone, in the order they stand in.
pub open spec fn kept_bins(bins: Seq<Seq<int>>, drops_columns: Seq<bool>) -> Seq<Seq<int>> {
    positions(bins.len()).filter(|b: int| !drops_columns[b]).map_values(|b: int| bins[b])
}

fn copy_bin(bin: &Vec<usize>) -> (out: Vec<usize>)
    ensures
        out@ == bin@,
{
    let mut out: Vec<usize> = Vec::new();
    let mut i: usize = 0;
    while i < bin.len()
        invariant
            i <= bin@.len(),
            out@ == bin@.take(i as int),
        decreases bin@.len() - i,
    {
        out.push(bin[i]);
        i = i + 1;
    }
    assert(bin@.take(bin@.len() as int) =~= bin@);
    out
}

/// The bins of which no file has a column that the table has dropped since. A
/// merged file is written with the columns of now, so merging the others would
/// lose what they hold.
pub fn viable_bins(bins: &Vec<Vec<usize>>, drops_columns: &Vec<bool>) -> (viable: Vec<Vec<usize>>)
    requires
        drops_columns@.len() == bins@.len(),
    ensures
        bins_view(viable@) == kept_bins(bins_view(bins@), drops_columns@),
{
    let ghost keep = |b: int| !drops_columns@[b];
    let ghost all = bins_view(bins@);
    let mut viable: Vec<Vec<usize>> = Vec::new();
    let mut b: usize = 0;
    assert(bins_view(viable@) =~= positions(0).filter(keep).map_values(|b: int| all[b]));
    while b < bins.len()
        invariant
            b <= bins@.len(),
            drops_columns@.len() == bins@.len(),
            all == bins_view(bins@),
            keep == (|b: int| !drops_columns@[b]),
            bins_view(viable@) =~= positions(b as nat).filter(keep).map_values(|b: int| all[b]),
        decreases bins@.len() - b,
    {
        let ghost before = viable@;
        proof {
            let next = positions((b + 1) as nat);
            reveal(Seq::filter);
            assert(next.drop_last() =~= positions(b as nat));
            assert(next.last() == b as int);
        }
        if !drops_columns[b] {
            viable.push(copy_bin(&bins[b]));
            assert(bins_view(viable@) =~= bins_view(before).push(all[b as int]));
        }
        b = b + 1;
    }
    viable
}

// ---------------------------------------------------------------------------
// The shape of one merged file
// ---------------------------------------------------------------------------

/// How the rows of one bin are written and recorded.
#[derive(Debug, Clone, PartialEq, Eq)]
pub struct MergeOutput {
    /// The snapshot that added each source file.
    pub origins: Vec<i64>,
    /// Whether each row carries the snapshot it comes from.
    pub partial: bool,
    /// The highest origin, where rows carry theirs.
    pub partial_max: Option<i64>,
    /// The lowest origin: from there on, the output stands for its sources.
    pub begin_snapshot: Option<i64>,
    pub partition_id: Option<i64>,
    pub partition_values: Vec<Option<String>>,
}

/// The snapshots that added the files of `bin`.
pub open spec fn bin_origins(files: Seq<DuckLakeTableFile>, bin: Seq<int>) -> Seq<Option<i64>> {
    bin.map_values(|p: int| files[p].begin_snapshot)
}

/// Whether `values` holds two different numbers.
pub open spec fn has_several(values: Seq<i64>) -> bool {
    exists|i: int, j: int|
        0 <= i < values.len() && 0 <= j < values.len() && #[trigger] values[i]
            != #[trigger] values[j]
}

/// Whether `least` is the smallest of `values`.
pub open spec fn is_least(values: Seq<i64>, least: i64) -> bool {
    &&& values.contains(least)
    &&& forall|i: int| 0 <= i < values.len() ==> least <= #[trigger] values[i]
}

/// Whether `most` is the largest of `values`.
pub open spec fn is_most(values: Seq<i64>, most: i64) -> bool {
    &&& values.contains(most)
    &&& forall|i: int| 0 <= i < values.len() ==> #[trigger] values[i] <= most
}

/// What a merge records of the output of one bin.
pub open spec fn is_merge_output(
    files: Seq<DuckLakeTableFile>,
    bin: Seq<int>,
    output: MergeOutput,
) -> bool {
    &&& output.origins@.len() == bin.len()
    &&& forall|i: int|
        0 <= i < bin.len() ==> files[bin[i]].begin_snapshot == Some(#[trigger] output.origins@[i])
    &&& output.partial == has_several(output.origins@)
    &&& output.partial_max is Some == output.partial
    &&& output.partial_max is Some ==> is_most(output.origins@, output.partial_max->0)
    &&& output.begin_snapshot is Some
    &&& is_least(output.origins@, output.begin_snapshot->0)
    &&& (output.partition_id, opt_views(output.partition_values@)) == partition_key_view(
        files[bin[0]],
    )
}

/// How the rows of the files at `bin` are written and recorded as one file.
pub fn merge_output(files: &Vec<DuckLakeTableFile>, bin: &Vec<usize>) -> (result: Result<
    MergeOutput,
    DuckLakeError,
>)
    requires
        bin@.len() > 0,
        forall|i: int| 0 <= i < bin@.len() ==> (#[trigger] bin@[i]) < files@.len(),
    ensures
        bin_origins(files@, ints(bin@)).contains(None) ==> internal(
            result,
            "merge candidate missing begin_snapshot"@,
        ),
        !bin_origins(files@, ints(bin@)).contains(None) ==> (result matches Ok(output)
            && is_merge_output(files@, ints(bin@), output)),
{
    let ghost all = bin_origins(files@, ints(bin@));
    let mut origins: Vec<i64> = Vec::new();
    let mut lowest: i64 = 0;
    let mut highest: i64 = 0;
    let mut i: usize = 0;
    while i < bin.len()
        invariant
            i <= bin@.len(),
            all == bin_origins(files@, ints(bin@)),
            forall|k: int| 0 <= k < bin@.len() ==> (#[trigger] bin@[k]) < files@.len(),
            origins@.len() == i,
            forall|k: int| 0 <= k < i ==> all[k] == Some(#[trigger] origins@[k]),
            i > 0 ==> is_least(origins@, lowest) && is_most(origins@, highest),
        decreases bin@.len() - i,
    {
        assert(all[i as int] == files@[bin@[i as int] as int].begin_snapshot);
        match files[bin[i]].begin_snapshot {
            None => {
                assert(all.contains(None));
                return Err(
                    DuckLakeError::Internal("merge candidate missing begin_snapshot".to_string()),
                );
            },
            Some(origin) => {
                let ghost before = origins@;
                let ghost (old_lowest, old_highest) = (lowest, highest);
                origins.push(origin);
                if i == 0 || origin < lowest {
                    lowest = origin;
                }
                if i == 0 || origin > highest {
                    highest = origin;
                }
                proof {
                    assert(origins@[i as int] == origin);
                    if i > 0 {
                        let a = choose|k: int| 0 <= k < before.len() && before[k] == old_lowest;
                        let b = choose|k: int| 0 <= k < before.len() && before[k] == old_highest;
                        assert(origins@[a] == old_lowest);
                        assert(origins@[b] == old_highest);
                    }
                    assert(origins@.contains(lowest));
                    assert(origins@.contains(highest));
                }
            },
        }
        i = i + 1;
    }
    proof {
        assert(!all.contains(None)) by {
            if all.contains(None) {
                let k = choose|k: int| 0 <= k < all.len() && all[k] is None;
                assert(all[k] == Some(origins@[k]));
            }
        }
        let a = choose|k: int| 0 <= k < origins@.len() && origins@[k] == lowest;
        let b = choose|k: int| 0 <= k < origins@.len() && origins@[k] == highest;
        if lowest != highest {
            assert(origins@[a] != origins@[b]);
            assert(has_several(origins@));
        } else {
            assert(!has_several(origins@)) by {
                if has_several(origins@) {
                    let (x, y) = choose|x: int, y: int|
                        0 <= x < origins@.len() && 0 <= y < origins@.len() && #[trigger] origins@[x]
                            != #[trigger] origins@[y];
                    assert(lowest <= origins@[x] <= highest);
                    assert(lowest <= origins@[y] <= highest);
                }
            }
        }
    }
    let partial = lowest != highest;
    let (partition_id, partition_values) = partition_key(&files[bin[0]]);
    let output = MergeOutput {
        origins,
        partial,
        partial_max: if partial {
            Some(highest)
        } else {
            None
        },
        begin_snapshot: Some(lowest),
        partition_id,
        partition_values,
    };
    assert forall|k: int| 0 <= k < bin@.len() implies files@[ints(bin@)[k]].begin_snapshot == Some(
        #[trigger] output.origins@[k],
    ) by {
        assert(all[k] == Some(output.origins@[k]));
    }
    Ok(output)
}

/// The snapshot stamped on every row of the source file number `i` of an output:
/// its origin, where rows carry theirs.
pub fn stamped_origin(output: &MergeOutput, i: usize) -> (stamp: Option<i64>)
    requires
        i < output.origins@.len(),
    ensures
        stamp == if output.partial {
            Some(output.origins@[i as int])
        } else {
            None
        },
{
    if output.partial {
        Some(output.origins[i])
    } else {
        None
    }
}

/// The name a compaction source goes by in a printed plan.
pub fn source_display(path: &str, origin: Option<i64>) -> (out: String)
    ensures
        out@ == "CompactionSourceExec: file="@ + path@ + ", origin="@ + (match origin {
            Some(origin) => crate::text::int_text(origin as int),
            None => "none"@,
        }),
{
    let mut out = "CompactionSourceExec: file=".to_string();
    out.append(path);
    out.append(", origin=");
    match origin {
        Some(origin) => crate::text::push_i64(&mut out, origin),
        None => out.append("none"),
    }
    out
}

// ---------------------------------------------------------------------------
// The commit
// ---------------------------------------------------------------------------

/// The bins one behind the other.
pub open spec fn concatenated(bins: Seq<Seq<int>>) -> Seq<int>
    decreases bins.len(),
{
    if bins.len() == 0 {
        Seq::empty()
    } else {
        concatenated(bins.drop_last()) + bins.last()
    }
}

/// How many rows the written files hold; `None` stands for no file.
pub open spec fn rows_written(written: Seq<Option<i64>>) -> int
    decreases written.len(),
{
    if written.len() == 0 {
        0
    } else {
        rows_written(written.drop_last()) + (match written.last() {
            Some(rows) => rows as int,
            None => 0,
        })
    }
}

/// The row counts can be added up.
pub open spec fn rows_fit(written: Seq<Option<i64>>) -> bool {
    forall|k: int|
        0 <= k <= written.len() ==> i64::MIN <= #[trigger] rows_written(written.take(k))
            <= i64::MAX
}

/// Whether the row counts can be added up.
pub fn row_counts_fit(written: &Vec<Option<i64>>) -> (fits: bool)
    ensures
        fits == rows_fit(written@),
{
    let mut rows: i64 = 0;
    let mut i: usize = 0;
    assert(forall|k: int| 0 <= k <= 0 ==> #[trigger] rows_written(written@.take(k)) == 0);
    while i < written.len()
        invariant
            i <= written@.len(),
            rows == rows_written(written@.take(i as int)),
            forall|k: int|
                0 <= k <= i ==> i64::MIN <= #[trigger] rows_written(written@.take(k)) <= i64::MAX,
        decreases written@.len() - i,
    {
        proof {
            assert(written@.take(i + 1).drop_last() =~= written@.take(i as int));
            assert(written@.take(i + 1).last() == written@[i as int]);
        }
        match written[i] {
            Some(count) => match rows.checked_add(count) {
                Some(sum) => {
                    rows = sum;
                },
                None => {
                    assert(!(i64::MIN <= rows_written(written@.take(i + 1)) <= i64::MAX));
                    return false;
                },
            },
            None => {},
        }
        i = i + 1;
    }
    true
}

/// Which of the outputs were written, in order.
pub open spec fn written_positions(written: Seq<Option<i64>>) -> Seq<int> {
    positions(written.len()).filter(|b: int| written[b] is Some)
}

/// Whether `pairs` records `values` as the values of the keys `0`, `1`, ...
pub open spec fn are_value_pairs(
    pairs: Seq<(i32, Option<String>)>,
    values: Seq<Option<String>>,
) -> bool {
    &&& pairs.len() == values.len()
    &&& forall|i: int| 0 <= i < pairs.len() ==> #[trigger] pairs[i] == (i as i32, values[i])
}

/// Whether `output` records that the file for `replaces` was written with `rows`
/// rows under the given identity.
pub open spec fn is_output(
    output: CompactionOutputFile,
    replaces: int,
    rows: i64,
    partial_max: Option<i64>,
    begin_snapshot: Option<i64>,
    partition_id: Option<i64>,
    partition_values: Seq<Option<String>>,
) -> bool {
    &&& output.replaces == replaces
    &&& output.record_count == rows
    &&& output.partial_max == partial_max
    &&& output.begin_snapshot == begin_snapshot
    &&& output.partition_id == partition_id
    &&& partition_id is Some ==> are_value_pairs(output.partition_values@, partition_values)
    &&& partition_id is None ==> output.partition_values@.len() == 0
}

fn output_file(
    replaces: usize,
    rows: i64,
    partial_max: Option<i64>,
    begin_snapshot: Option<i64>,
    partition_id: Option<i64>,
    partition_values: &Vec<Option<String>>,
) -> (output: CompactionOutputFile)
    ensures
        is_output(
            output,
            replaces as int,
            rows,
            partial_max,
            begin_snapshot,
            partition_id,
            partition_values@,
        ),
{
    let pairs = match partition_id {
        Some(_) => partition_value_pairs(partition_values),
        None => Vec::new(),
    };
    CompactionOutputFile {
        replaces,
        record_count: rows,
        partial_max,
        begin_snapshot,
        partition_id,
        partition_values: pairs,
    }
}

/// What a merge commits: its sources are all files of all bins, whether or not
/// they held rows; its outputs are the files that were written, each standing
/// for its sources from their lowest origin on.
pub open spec fn is_merge_commit(
    files: Seq<DuckLakeTableFile>,
    bins: Seq<Seq<int>>,
    shapes: Seq<MergeOutput>,
    written: Seq<Option<i64>>,
    commit: CompactionCommit,
) -> bool {
    let sources = concatenated(bins);
    let outputs = written_positions(written);
    &&& commit.sources@.len() == sources.len()
    &&& forall|i: int|
        0 <= i < sources.len() ==> (#[trigger] commit.sources@[i]) == (CompactionSourceFile {
            data_file_id: files[sources[i]].data_file_id,
            delete_file_id: None,
        })
    &&& commit.outputs@.len() == outputs.len()
    &&& forall|k: int|
        0 <= k < outputs.len() ==> is_output(
            #[trigger] commit.outputs@[k],
            outputs[k],
            written[outputs[k]]->0,
            shapes[outputs[k]].partial_max,
            shapes[outputs[k]].begin_snapshot,
            shapes[outputs[k]].partition_id,
            shapes[outputs[k]].partition_values@,
        )
    &&& commit.retirement == SourceRetirement::Remove
    &&& commit.result.files_processed == sources.len()
    &&& commit.result.files_created == outputs.len()
    &&& commit.result.rows_written == rows_written(written)
}

proof fn lemma_written_positions_step(written: Seq<Option<i64>>, b: int)
    requires
        0 <= b < written.len(),
    ensures
        written_positions(written.take(b + 1)) == if written[b] is Some {
            written_positions(written.take(b)).push(b)
        } else {
            written_positions(written.take(b))
        },
        rows_written(written.take(b + 1)) == rows_written(written.take(b)) + (match written[b] {
            Some(rows) => rows as int,
            None => 0,
        }),
{
    let next = written.take(b + 1);
    let prior = written.take(b);
    assert(next.drop_last() =~= prior);
    assert(positions(next.len()).drop_last() =~= positions(prior.len()));
    reveal(Seq::filter);
    lemma_filter_same(
        positions(prior.len()),
        |k: int| next[k] is Some,
        |k: int| prior[k] is Some,
    );
}

proof fn lemma_filter_same(
    items: Seq<int>,
    a: spec_fn(int) -> bool,
    b: spec_fn(int) -> bool,
)
    requires
        forall|i: int| 0 <= i < items.len() ==> a(#[trigger] items[i]) == b(items[i]),
    ensures
        items.filter(a) == items.filter(b),
    decreases items.len(),
{
    reveal(Seq::filter);
    if items.len() > 0 {
        let rest = items.drop_last();
        assert forall|i: int| 0 <= i < rest.len() implies a(#[trigger] rest[i]) == b(rest[i]) by {
            assert(rest[i] == items[i]);
        }
        lemma_filter_same(rest, a, b);
        assert(a(items[items.len() - 1]) == b(items[items.len() - 1]));
    }
}

/// What a merge of `bins` commits, given how each bin was to be recorded and how
/// many rows were written for it. Without a bin there is nothing to commit.
pub fn finish_merge(
    files: &Vec<DuckLakeTableFile>,
    bins: &Vec<Vec<usize>>,
    shapes: &Vec<MergeOutput>,
    written: &Vec<Option<i64>>,
) -> (commit: Option<CompactionCommit>)
    requires
        shapes@.len() == bins@.len(),
        written@.len() == bins@.len(),
        forall|b: int, i: int|
            0 <= b < bins@.len() && 0 <= i < bins@[b]@.len() ==> (#[trigger] bins@[b]@[i])
                < files@.len(),
        rows_fit(written@),
    ensures
        match commit {
            Some(commit) => concatenated(bins_view(bins@)).len() > 0 && is_merge_commit(
                files@,
                bins_view(bins@),
                shapes@,
                written@,
                commit,
            ),
            None => concatenated(bins_view(bins@)).len() == 0,
        },
{
    let ghost all = bins_view(bins@);
    let mut sources: Vec<CompactionSourceFile> = Vec::new();
    let mut outputs: Vec<CompactionOutputFile> = Vec::new();
    let mut rows: i64 = 0;
    let mut b: usize = 0;
    assert(written@.take(0) =~= Seq::empty());
    assert(all.take(0) =~= Seq::empty());
    reveal(Seq::filter);
    while b < bins.len()
        invariant
            b <= bins@.len(),
            all == bins_view(bins@),
            shapes@.len() == bins@.len(),
            written@.len() == bins@.len(),
            forall|b: int, i: int|
                0 <= b < bins@.len() && 0 <= i < bins@[b]@.len() ==> (#[trigger] bins@[b]@[i])
                    < files@.len(),
            rows_fit(written@),
            rows == rows_written(written@.take(b as int)),
            sources@.len() == concatenated(all.take(b as int)).len(),
            forall|i: int|
                0 <= i < sources@.len() ==> (#[trigger] sources@[i]) == (CompactionSourceFile {
                    data_file_id: files@[concatenated(all.take(b as int))[i]].data_file_id,
                    delete_file_id: None,
                }),
            outputs@.len() == written_positions(written@.take(b as int)).len(),
            forall|k: int|
                0 <= k < outputs@.len() ==> ({
                    let p = written_positions(written@.take(b as int))[k];
                    is_output(
                        #[trigger] outputs@[k],
                        p,
                        written@[p]->0,
                        shapes@[p].partial_max,
                        shapes@[p].begin_snapshot,
                        shapes@[p].partition_id,
                        shapes@[p].partition_values@,
                    )
                }),
        decreases bins@.len() - b,
    {
        let bin = &bins[b];
        let ghost done = concatenated(all.take(b as int));
        proof {
            assert(all.take(b as int + 1).drop_last() =~= all.take(b as int));
            assert(all.take(b as int + 1).last() == ints(bin@));
            lemma_written_positions_step(written@, b as int);
            assert(i64::MIN <= rows_written(written@.take(b as int + 1)) <= i64::MAX);
        }
        let mut i: usize = 0;
        while i < bin.len()
            invariant
                i <= bin@.len(),
                b < bins@.len(),
                *bin == bins@[b as int],
                forall|b: int, i: int|
                    0 <= b < bins@.len() && 0 <= i < bins@[b]@.len() ==> (#[trigger] bins@[b]@[i])
                        < files@.len(),
                sources@.len() == done.len() + i,
                forall|k: int|
                    0 <= k < sources@.len() ==> (#[trigger] sources@[k]) == (CompactionSourceFile {
                        data_file_id: files@[(done + ints(bin@))[k]].data_file_id,
                        delete_file_id: None,
                    }),
            decreases bin@.len() - i,
        {
            assert(bins@[b as int]@[i as int] < files@.len());
            sources.push(
                CompactionSourceFile {
                    data_file_id: files[bin[i]].data_file_id,
                    delete_file_id: None,
                },
            );
            assert((done + ints(bin@))[done.len() + i] == bin@[i as int] as int);
            i = i + 1;
        }
        match written[b] {
            Some(count) => {
                rows = rows + count;
                outputs.push(
                    output_file(
                        b,
                        count,
                        shapes[b].partial_max,
                        shapes[b].begin_snapshot,
                        shapes[b].partition_id,
                        &shapes[b].partition_values,
                    ),
                );
            },
            None => {},
        }
        b = b + 1;
    }
    assert(written@.take(written@.len() as int) =~= written@);
    assert(all.take(all.len() as int) =~= all);
    if sources.len() == 0 {
        return None;
    }
    let result = CompactionResult {
        files_processed: sources.len(),
        files_created: outputs.len(),
        rows_written: rows,
    };
    Some(CompactionCommit { sources, outputs, retirement: SourceRetirement::Remove, result })
}

/// No position stands twice in the bins, be it in one bin or in two.
pub open spec fn are_disjoint(bins: Seq<Seq<int>>) -> bool {
    forall|b: int, i: int, c: int, j: int|
        #![trigger bins[b][i], bins[c][j]]
        0 <= b < bins.len() && 0 <= c < bins.len() && 0 <= i < bins[b].len() && 0 <= j
            < bins[c].len() && bins[b][i] == bins[c][j] ==> b == c && i == j
}

proof fn lemma_concatenated(bins: Seq<Seq<int>>)
    ensures
        forall|x: int| #[trigger]
            concatenated(bins).contains(x) ==> exists|b: int, i: int|
                0 <= b < bins.len() && 0 <= i < bins[b].len() && #[trigger] bins[b][i] == x,
        are_disjoint(bins) ==> concatenated(bins).no_duplicates(),
    decreases bins.len(),
{
    if bins.len() > 0 {
        let rest = bins.drop_last();
        let last = bins.last();
        lemma_concatenated(rest);
        let all = concatenated(bins);
        assert forall|x: int| #[trigger] all.contains(x) implies exists|b: int, i: int|
            0 <= b < bins.len() && 0 <= i < bins[b].len() && #[trigger] bins[b][i] == x by {
            let k = choose|k: int| 0 <= k < all.len() && all[k] == x;
            let split = concatenated(rest).len();
            if k < split {
                assert(concatenated(rest)[k] == x);
                assert(concatenated(rest).contains(x));
                let (b, i) = choose|b: int, i: int|
                    0 <= b < rest.len() && 0 <= i < rest[b].len() && #[trigger] rest[b][i] == x;
                assert(bins[b][i] == x);
            } else {
                assert(bins[bins.len() - 1][k - split] == x);
            }
        }
        if are_disjoint(bins) {
            assert(are_disjoint(rest)) by {
                assert forall|b: int, i: int, c: int, j: int|
                    #![trigger rest[b][i], rest[c][j]]
                    0 <= b < rest.len() && 0 <= c < rest.len() && 0 <= i < rest[b].len() && 0 <= j
                        < rest[c].len() && rest[b][i] == rest[c][j] implies b == c && i == j by {
                    assert(bins[b][i] == bins[c][j]);
                }
            }
            let split = concatenated(rest).len();
            assert forall|k: int, l: int| 0 <= k < l < all.len() implies all[k] != all[l] by {
                if l < split {
                    assert(concatenated(rest)[k] != concatenated(rest)[l]);
                } else if k >= split {
                    let n = bins.len() - 1;
                    assert(bins[n][k - split] != bins[n][l - split] || k == l);
                } else {
                    let x = all[k];
                    assert(concatenated(rest)[k] == x);
                    assert(concatenated(rest).contains(x));
                    let (b, i) = choose|b: int, i: int|
                        0 <= b < rest.len() && 0 <= i < rest[b].len() && #[trigger] rest[b][i] == x;
                    let n = bins.len() - 1;
                    assert(bins[b][i] == x);
                    assert(bins[n][l - split] == all[l]);
                }
            }
        }
    }
}

/// Whatever a merge commits, it takes each file out of the table at most once,
/// takes out only files that the plan allows to be merged, and takes out no more
/// files than it was allowed to.
pub proof fn lemma_merge_sources(
    files: Seq<DuckLakeTableFile>,
    options: MergeOptions,
    drops_columns: Seq<bool>,
)
    requires
        drops_columns.len() == merge_bins(files, options).len(),
    ensures
        ({
            let sources = concatenated(kept_bins(merge_bins(files, options), drops_columns));
            &&& sources.no_duplicates()
            &&& sources.len() <= options.max_merged_files
            &&& forall|i: int|
                0 <= i < sources.len() ==> 0 <= #[trigger] sources[i] < files.len()
                    && is_merge_candidate(files[sources[i]], options)
        }),
{
    let bins = merge_bins(files, options);
    let keep = |b: int| !drops_columns[b];
    let chosen = positions(bins.len()).filter(keep);
    let kept = kept_bins(bins, drops_columns);
    let sources = concatenated(kept);
    let sequence = merge_sequence(files, options);
    lemma_merge_bins(files, options);
    lemma_chosen(bins.len(), keep);
    assert(kept.len() == chosen.len());
    assert forall|k: int| 0 <= k < kept.len() implies kept[k] == bins[#[trigger] chosen[k]] by {}
    assert(are_disjoint(kept)) by {
        assert forall|b: int, i: int, c: int, j: int|
            #![trigger kept[b][i], kept[c][j]]
            0 <= b < kept.len() && 0 <= c < kept.len() && 0 <= i < kept[b].len() && 0 <= j
                < kept[c].len() && kept[b][i] == kept[c][j] implies b == c && i == j by {
            let p = chosen[b];
            let q = chosen[c];
            assert(bins[p][i] == bins[q][j]);
            assert(p == q && i == j);
            if b < c {
                assert(chosen[b] < chosen[c]);
            } else if c < b {
                assert(chosen[c] < chosen[b]);
            }
        }
    }
    lemma_concatenated(kept);
    assert forall|i: int| 0 <= i < sources.len() implies 0 <= #[trigger] sources[i] < files.len()
        && is_merge_candidate(files[sources[i]], options) && sequence.contains(sources[i]) by {
        assert(sources.contains(sources[i]));
        let (b, k) = choose|b: int, k: int|
            0 <= b < kept.len() && 0 <= k < kept[b].len() && #[trigger] kept[b][k] == sources[i];
        let p = chosen[b];
        assert(is_sound_bin(files, options, bins[p]));
        assert(bins[p][k] == sources[i]);
    }
    let source_set = sources.to_set();
    let sequence_set = sequence.to_set();
    assert(source_set.subset_of(sequence_set)) by {
        assert forall|x: int| source_set.contains(x) implies sequence_set.contains(x) by {
            let i = choose|i: int| 0 <= i < sources.len() && sources[i] == x;
            assert(sequence.contains(sources[i]));
        }
    }
    sources.unique_seq_to_set();
    sequence.lemma_cardinality_of_set();
    vstd::set_lib::lemma_len_subset(source_set, sequence_set);
}

proof fn lemma_chosen(n: nat, keep: spec_fn(int) -> bool)
    ensures
        ascending(positions(n).filter(keep)),
        forall|k: int|
            0 <= k < positions(n).filter(keep).len() ==> 0 <= #[trigger] positions(n).filter(
                keep,
            )[k] < n,
    decreases n,
{
    reveal(Seq::filter);
    if n > 0 {
        lemma_chosen((n - 1) as nat, keep);
        assert(positions(n).drop_last() =~= positions((n - 1) as nat));
        assert(positions(n).last() == n - 1);
    }
}

// ---------------------------------------------------------------------------
// Rewriting files with deleted rows
// ---------------------------------------------------------------------------

/// Whether a rewrite takes a file: one of the files asked for, or, when none was
/// asked for, one with deletes and rows whose deleted part is large enough.
pub open spec fn is_rewrite_candidate(
    file: DuckLakeTableFile,
    selected: Option<Seq<i64>>,
    over_threshold: bool,
) -> bool {
    match selected {
        Some(ids) => ids.contains(file.data_file_id),
        None => {
            &&& file.delete_file_id is Some
            &&& file.max_row_count matches Some(rows) && rows > 0
            &&& over_threshold
        },
    }
}

fn contains_id(ids: &Vec<i64>, id: i64) -> (found: bool)
    ensures
        found == ids@.contains(id),
{
    let mut i: usize = 0;
    while i < ids.len()
        invariant
            i <= ids@.len(),
            forall|k: int| 0 <= k < i ==> #[trigger] ids@[k] != id,
        decreases ids@.len() - i,
    {
        if ids[i] == id {
            return true;
        }
        i = i + 1;
    }
    false
}

/// The positions of the files that a rewrite takes.
pub open spec fn rewrite_positions(
    files: Seq<DuckLakeTableFile>,
    selected: Option<Seq<i64>>,
    over_threshold: Seq<bool>,
) -> Seq<int> {
    positions(files.len()).filter(
        |i: int| is_rewrite_candidate(files[i], selected, over_threshold[i]),
    )
}

/// The views of an optional list of numbers.
pub open spec fn opt_ids(ids: Option<Vec<i64>>) -> Option<Seq<i64>> {
    match ids {
        Some(ids) => Some(ids@),
        None => None,
    }
}

/// The files that a rewrite takes. `over_threshold` says of each file whether
/// the deleted part of its rows reaches the threshold.
pub fn rewrite_candidates(
    files: &Vec<DuckLakeTableFile>,
    selected: &Option<Vec<i64>>,
    over_threshold: &Vec<bool>,
) -> (candidates: Vec<usize>)
    requires
        over_threshold@.len() == files@.len(),
    ensures
        ints(candidates@) == rewrite_positions(files@, opt_ids(*selected), over_threshold@),
        forall|k: int|
            0 <= k < candidates@.len() ==> (#[trigger] candidates@[k]) < files@.len(),
{
    let ghost wanted = |i: int|
        is_rewrite_candidate(files@[i], opt_ids(*selected), over_threshold@[i]);
    let mut candidates: Vec<usize> = Vec::new();
    let mut i: usize = 0;
    reveal(Seq::filter);
    assert(ints(candidates@) =~= positions(0).filter(wanted));
    while i < files.len()
        invariant
            i <= files@.len(),
            over_threshold@.len() == files@.len(),
            wanted == (|i: int|
                is_rewrite_candidate(files@[i], opt_ids(*selected), over_threshold@[i])),
            ints(candidates@) =~= positions(i as nat).filter(wanted),
            forall|k: int|
                0 <= k < candidates@.len() ==> (#[trigger] candidates@[k]) < files@.len(),
        decreases files@.len() - i,
    {
        let file = &files[i];
        let take = match selected {
            Some(ids) => contains_id(ids, file.data_file_id),
            None => file.delete_file_id.is_some() && (match file.max_row_count {
                Some(rows) => rows > 0,
                None => false,
            }) && over_threshold[i],
        };
        let ghost before = candidates@;
        proof {
            reveal(Seq::filter);
            let next = positions((i + 1) as nat);
            assert(next.drop_last() =~= positions(i as nat));
            assert(next.last() == i as int);
            assert(take == wanted(i as int));
        }
        if take {
            candidates.push(i);
            assert(ints(candidates@) =~= ints(before).push(i as int));
        }
        i = i + 1;
    }
    candidates
}

/// What a rewrite commits: each source goes together with its delete file, and
/// goes on serving the snapshots before; each output belongs to the partition of
/// the one file it replaces and begins with the commit.
pub open spec fn is_rewrite_commit(
    files: Seq<DuckLakeTableFile>,
    candidates: Seq<int>,
    written: Seq<Option<i64>>,
    commit: CompactionCommit,
) -> bool {
    let outputs = written_positions(written);
    &&& commit.sources@.len() == candidates.len()
    &&& forall|i: int|
        0 <= i < candidates.len() ==> (#[trigger] commit.sources@[i]) == (CompactionSourceFile {
            data_file_id: files[candidates[i]].data_file_id,
            delete_file_id: files[candidates[i]].delete_file_id,
        })
    &&& commit.outputs@.len() == outputs.len()
    &&& forall|k: int|
        0 <= k < outputs.len() ==> is_rewrite_output(
            #[trigger] commit.outputs@[k],
            outputs[k],
            written[outputs[k]]->0,
            files[candidates[outputs[k]]],
        )
    &&& commit.retirement == SourceRetirement::Retire
    &&& commit.result.files_processed == candidates.len()
    &&& commit.result.files_created == outputs.len()
    &&& commit.result.rows_written == rows_written(written)
}

/// Whether `output` records the rewrite of `file`.
pub open spec fn is_rewrite_output(
    output: CompactionOutputFile,
    replaces: int,
    rows: i64,
    file: DuckLakeTableFile,
) -> bool {
    let key = partition_key_view(file);
    &&& output.replaces == replaces
    &&& output.record_count == rows
    &&& output.partial_max is None
    &&& output.begin_snapshot is None
    &&& output.partition_id == key.0
    &&& key.0 is None ==> output.partition_values@.len() == 0
    &&& key.0 is Some ==> output.partition_values@.len() == key.1.len() && forall|i: int|
        0 <= i < key.1.len() ==> ((#[trigger] output.partition_values@[i]).0 == i as i32
            && crate::order::opt_view(output.partition_values@[i].1) == key.1[i])
}

/// What a rewrite of the files at `candidates` commits, given how many rows were
/// written for each; `None` for a file of which no row was left. Without a file
/// there is nothing to commit.
pub fn finish_rewrite(
    files: &Vec<DuckLakeTableFile>,
    candidates: &Vec<usize>,
    written: &Vec<Option<i64>>,
) -> (commit: Option<CompactionCommit>)
    requires
        written@.len() == candidates@.len(),
        forall|k: int|
            0 <= k < candidates@.len() ==> (#[trigger] candidates@[k]) < files@.len(),
        rows_fit(written@),
    ensures
        match commit {
            Some(commit) => candidates@.len() > 0 && is_rewrite_commit(
                files@,
                ints(candidates@),
                written@,
                commit,
            ),
            None => candidates@.len() == 0,
        },
{
    if candidates.len() == 0 {
        return None;
    }
    let mut sources: Vec<CompactionSourceFile> = Vec::new();
    let mut outputs: Vec<CompactionOutputFile> = Vec::new();
    let mut rows: i64 = 0;
    let mut c: usize = 0;
    assert(written@.take(0) =~= Seq::empty());
    reveal(Seq::filter);
    while c < candidates.len()
        invariant
            c <= candidates@.len(),
            written@.len() == candidates@.len(),
            forall|k: int|
                0 <= k < candidates@.len() ==> (#[trigger] candidates@[k]) < files@.len(),
            rows_fit(written@),
            rows == rows_written(written@.take(c as int)),
            sources@.len() == c,
            forall|i: int|
                0 <= i < c ==> (#[trigger] sources@[i]) == (CompactionSourceFile {
                    data_file_id: files@[ints(candidates@)[i]].data_file_id,
                    delete_file_id: files@[ints(candidates@)[i]].delete_file_id,
                }),
            outputs@.len() == written_positions(written@.take(c as int)).len(),
            forall|k: int|
                0 <= k < outputs@.len() ==> ({
                    let p = written_positions(written@.take(c as int))[k];
                    is_rewrite_output(
                        #[trigger] outputs@[k],
                        p,
                        written@[p]->0,
                        files@[ints(candidates@)[p]],
                    )
                }),
        decreases candidates@.len() - c,
    {
        proof {
            lemma_written_positions_step(written@, c as int);
            assert(i64::MIN <= rows_written(written@.take(c as int + 1)) <= i64::MAX);
        }
        let file = &files[candidates[c]];
        sources.push(
            CompactionSourceFile {
                data_file_id: file.data_file_id,
                delete_file_id: file.delete_file_id,
            },
        );
        match written[c] {
            Some(count) => {
                rows = rows + count;
                let (partition_id, partition_values) = partition_key(file);
                let output = output_file(c, count, None, None, partition_id, &partition_values);
                assert(is_rewrite_output(output, c as int, count, *file)) by {
                    assert forall|i: int|
                        partition_id is Some && 0 <= i < partition_key_view(*file).1.len() implies (
                    (#[trigger] output.partition_values@[i]).0 == i as i32
                        && crate::order::opt_view(output.partition_values@[i].1)
                        == partition_key_view(*file).1[i]) by {
                        assert(output.partition_values@[i] == (i as i32, partition_values@[i]));
                        assert(opt_views(partition_values@)[i] == crate::order::opt_view(
                            partition_values@[i],
                        ));
                    }
                }
                outputs.push(output);
            },
            None => {},
        }
        c = c + 1;
    }
    assert(written@.take(written@.len() as int) =~= written@);
    let result = CompactionResult {
        files_processed: sources.len(),
        files_created: outputs.len(),
        rows_written: rows,
    };
    Some(CompactionCommit { sources, outputs, retirement: SourceRetirement::Retire, result })
}

// ---------------------------------------------------------------------------
// What a commit does to the files of a table
// ---------------------------------------------------------------------------

proof fn lemma_chosen_members(n: nat, keep: spec_fn(int) -> bool, i: int)
    ensures
        positions(n).filter(keep).contains(i) <==> 0 <= i < n && keep(i),
    decreases n,
{
    reveal(Seq::filter);
    let all = positions(n);
    if n > 0 {
        let front = positions((n - 1) as nat);
        assert(all.drop_last() =~= front);
        lemma_chosen_members((n - 1) as nat, keep, i);
        let some = front.filter(keep);
        if keep(n - 1) {
            let more = some.push(n - 1);
            assert(all.filter(keep) =~= more);
            assert(more[some.len() as int] == n - 1);
            if some.contains(i) {
                let k = choose|k: int| 0 <= k < some.len() && some[k] == i;
                assert(more[k] == i);
            }
            if more.contains(i) {
                let k = choose|k: int| 0 <= k < more.len() && more[k] == i;
                if k < some.len() {
                    assert(some[k] == i);
                }
            }
        }
    }
}

/// A bin is left alone if, and only if, one of its files has a column that the table has
/// dropped. The others stay in the order they stood in.
pub proof fn lemma_viable_bins(bins: Seq<Seq<int>>, drops_columns: Seq<bool>, b: int)
    requires
        drops_columns.len() == bins.len(),
    ensures
        0 <= b < bins.len() && !drops_columns[b] ==> kept_bins(bins, drops_columns).contains(
            bins[b],
        ),
        forall|k: int|
            0 <= k < kept_bins(bins, drops_columns).len() ==> exists|p: int|
                0 <= p < bins.len() && !drops_columns[p] && #[trigger] bins[p] == (
                #[trigger] kept_bins(bins, drops_columns)[k]),
        exists|from: Seq<int>|
            ascending(from) && #[trigger] from.len() == kept_bins(bins, drops_columns).len()
                && forall|k: int|
                0 <= k < from.len() ==> 0 <= (#[trigger] from[k]) < bins.len() && kept_bins(
                    bins,
                    drops_columns,
                )[k] == bins[from[k]],
        (forall|p: int| 0 <= p < bins.len() ==> !#[trigger] drops_columns[p]) ==> kept_bins(
            bins,
            drops_columns,
        ) == bins,
{
    let keep = |p: int| !drops_columns[p];
    let chosen = positions(bins.len()).filter(keep);
    let kept = kept_bins(bins, drops_columns);
    lemma_chosen(bins.len(), keep);
    assert forall|k: int| 0 <= k < kept.len() implies exists|p: int|
        0 <= p < bins.len() && !drops_columns[p] && #[trigger] bins[p] == #[trigger] kept[k] by {
        let p = chosen[k];
        assert(chosen.contains(p));
        lemma_chosen_members(bins.len(), keep, p);
        assert(bins[p] == kept[k]);
    }
    assert(ascending(chosen) && chosen.len() == kept.len());
    if 0 <= b < bins.len() && !drops_columns[b] {
        lemma_chosen_members(bins.len(), keep, b);
        let k = choose|k: int| 0 <= k < chosen.len() && chosen[k] == b;
        assert(kept[k] == bins[b]);
    }
    if forall|p: int| 0 <= p < bins.len() ==> !#[trigger] drops_columns[p] {
        lemma_all_chosen(bins.len(), keep);
        assert(kept =~= bins);
    }
}

proof fn lemma_all_chosen(n: nat, keep: spec_fn(int) -> bool)
    requires
        forall|p: int| 0 <= p < n ==> #[trigger] keep(p),
    ensures
        positions(n).filter(keep) == positions(n),
    decreases n,
{
    reveal(Seq::filter);
    if n > 0 {
        assert(positions(n).drop_last() =~= positions((n - 1) as nat));
        lemma_all_chosen((n - 1) as nat, keep);
        assert(keep(n - 1));
        assert(positions((n - 1) as nat).push(n - 1) =~= positions(n));
    }
}

/// A merged file stands for its sources from the snapshot on that the first of them
/// came with. Where they came with different ones its rows carry theirs, and it records
/// the last; where they all came with one it records none.
pub proof fn lemma_merged_file_origins(
    files: Seq<DuckLakeTableFile>,
    bin: Seq<int>,
    output: MergeOutput,
)
    requires
        bin.len() > 0,
        is_merge_output(files, bin, output),
    ensures
        output.begin_snapshot is Some,
        exists|i: int|
            0 <= i < bin.len() && files[#[trigger] bin[i]].begin_snapshot == output.begin_snapshot,
        forall|i: int|
            0 <= i < bin.len() ==> (files[#[trigger] bin[i]].begin_snapshot matches Some(origin)
                && origin >= output.begin_snapshot->0 && output.origins@[i] == origin && (
            output.partial_max matches Some(last) ==> origin <= last)),
        output.partial_max is Some ==> exists|i: int|
            0 <= i < bin.len() && files[#[trigger] bin[i]].begin_snapshot == output.partial_max,
        output.partial_max is None <==> forall|i: int|
            0 <= i < bin.len() ==> files[#[trigger] bin[i]].begin_snapshot
                == output.begin_snapshot,
        output.partial <==> output.partial_max is Some,
        output.partition_id == files[bin[0]].partition_id,
        opt_views(output.partition_values@) == crate::compaction::ordered_values(
            files[bin[0]].partition_values@,
        ),
{
    let origins = output.origins@;
    let least = choose|i: int| 0 <= i < origins.len() && origins[i] == output.begin_snapshot->0;
    assert(files[bin[least]].begin_snapshot == Some(origins[least]));
    assert forall|i: int| 0 <= i < bin.len() implies (
    files[#[trigger] bin[i]].begin_snapshot matches Some(origin) && origin
        >= output.begin_snapshot->0 && output.origins@[i] == origin && (
    output.partial_max matches Some(last) ==> origin <= last)) by {
        assert(files[bin[i]].begin_snapshot == Some(origins[i]));
    }
    if output.partial_max is Some {
        let most = choose|i: int| 0 <= i < origins.len() && origins[i] == output.partial_max->0;
        assert(files[bin[most]].begin_snapshot == Some(origins[most]));
        let (x, y) = choose|x: int, y: int|
            0 <= x < origins.len() && 0 <= y < origins.len() && #[trigger] origins[x]
                != #[trigger] origins[y];
        assert(files[bin[x]].begin_snapshot == Some(origins[x]));
        assert(files[bin[y]].begin_snapshot == Some(origins[y]));
    } else {
        assert forall|i: int| 0 <= i < bin.len() implies files[#[trigger] bin[i]].begin_snapshot
            == output.begin_snapshot by {
            assert(files[bin[i]].begin_snapshot == Some(origins[i]));
            assert(origins[i] == origins[least]);
        }
    }
}

/// A bin can be recorded if, and only if, it is known of each file which snapshot it
/// came with.
pub proof fn lemma_bin_origins(files: Seq<DuckLakeTableFile>, bin: Seq<int>)
    ensures
        bin_origins(files, bin).contains(None) <==> exists|i: int|
            0 <= i < bin.len() && files[#[trigger] bin[i]].begin_snapshot is None,
{
    let origins = bin_origins(files, bin);
    if origins.contains(None) {
        let i = choose|i: int| 0 <= i < origins.len() && origins[i] is None;
        assert(files[bin[i]].begin_snapshot is None);
    }
    if exists|i: int| 0 <= i < bin.len() && files[#[trigger] bin[i]].begin_snapshot is None {
        let i = choose|i: int|
            0 <= i < bin.len() && files[#[trigger] bin[i]].begin_snapshot is None;
        assert(origins[i] is None);
    }
}

/// The bins one behind the other are the bins flattened.
pub proof fn lemma_concatenated_is_flat(bins: Seq<Seq<int>>)
    ensures
        concatenated(bins) == bins.flatten(),
    decreases bins.len(),
{
    bins.lemma_flatten_and_flatten_alt_are_equivalent();
    if bins.len() > 0 {
        lemma_concatenated_is_flat(bins.drop_last());
        bins.drop_last().lemma_flatten_and_flatten_alt_are_equivalent();
    }
}

proof fn lemma_concatenated_holds(bins: Seq<Seq<int>>, b: int, i: int)
    requires
        0 <= b < bins.len(),
        0 <= i < bins[b].len(),
    ensures
        concatenated(bins).contains(bins[b][i]),
    decreases bins.len(),
{
    let rest = bins.drop_last();
    let all = concatenated(bins);
    if b < rest.len() {
        assert(rest[b] == bins[b]);
        lemma_concatenated_holds(rest, b, i);
        let k = choose|k: int|
            0 <= k < concatenated(rest).len() && concatenated(rest)[k] == bins[b][i];
        assert(all[k] == bins[b][i]);
    } else {
        assert(all[concatenated(rest).len() + i] == bins[b][i]);
    }
}

/// The rows of files add up, file by file; a file that was not written has none.
pub proof fn lemma_rows_add_up(a: Seq<Option<i64>>, b: Seq<Option<i64>>, rows: i64)
    ensures
        rows_written(a + b) == rows_written(a) + rows_written(b),
        rows_written(seq![Some(rows)]) == rows,
        rows_written(seq![None::<i64>]) == 0,
        rows_written(Seq::empty()) == 0,
    decreases b.len(),
{
    assert(seq![Some(rows)].drop_last() =~= Seq::empty());
    assert(seq![None::<i64>].drop_last() =~= Seq::empty());
    reveal_with_fuel(rows_written, 2);
    if b.len() > 0 {
        lemma_rows_add_up(a, b.drop_last(), rows);
        assert((a + b).drop_last() =~= a + b.drop_last());
        assert((a + b).last() == b.last());
    } else {
        assert(a + b =~= a);
    }
}

/// Row counts can be added up if, and only if, no sum on the way leaves the range of
/// counts.
pub proof fn lemma_rows_fit(written: Seq<Option<i64>>, n: int)
    ensures
        rows_fit(written) && 0 <= n <= written.len() ==> -0x8000_0000_0000_0000 <= rows_written(
            written.take(n),
        ) <= 0x7fff_ffff_ffff_ffff,
        (forall|k: int|
            0 <= k <= written.len() ==> -0x8000_0000_0000_0000 <= #[trigger] rows_written(
                written.take(k),
            ) <= 0x7fff_ffff_ffff_ffff) ==> rows_fit(written),
{
}

/// How many rows files hold by what is recorded of them.
pub open spec fn rows_recorded(outputs: Seq<CompactionOutputFile>) -> int
    decreases outputs.len(),
{
    if outputs.len() == 0 {
        0
    } else {
        outputs.last().record_count + rows_recorded(outputs.drop_last())
    }
}

proof fn lemma_rows_recorded(written: Seq<Option<i64>>, outputs: Seq<CompactionOutputFile>, n: int)
    requires
        0 <= n <= written.len(),
        outputs.len() == written_positions(written.take(n)).len(),
        forall|k: int|
            0 <= k < outputs.len() ==> (#[trigger] outputs[k]).record_count
                == written[written_positions(written.take(n))[k]]->0,
    ensures
        rows_recorded(outputs) == rows_written(written.take(n)),
    decreases n,
{
    if n > 0 {
        lemma_written_positions_step(written, n - 1);
        let before = written_positions(written.take(n - 1));
        if written[n - 1] is Some {
            assert(written_positions(written.take(n)) == before.push(n - 1));
            assert forall|k: int| 0 <= k < outputs.len() - 1 implies (
            #[trigger] outputs.drop_last()[k]).record_count == written[before[k]]->0 by {
                assert(outputs[k].record_count == written[before.push(n - 1)[k]]->0);
            }
            lemma_rows_recorded(written, outputs.drop_last(), n - 1);
            assert(outputs.last().record_count == written[n - 1]->0);
        } else {
            lemma_rows_recorded(written, outputs, n - 1);
        }
    } else {
        assert(written.take(0) =~= Seq::empty());
        assert(written_positions(written.take(0)).len() == 0) by {
            reveal(Seq::filter);
        }
    }
}

/// Which outputs were written, each once and in order.
proof fn lemma_written(written: Seq<Option<i64>>, b: int)
    ensures
        written_positions(written).contains(b) <==> 0 <= b < written.len() && written[b] is Some,
        ascending(written_positions(written)),
        forall|k: int|
            0 <= k < written_positions(written).len() ==> 0 <= #[trigger] written_positions(
                written,
            )[k] < written.len(),
{
    let keep = |b: int| written[b] is Some;
    lemma_chosen_members(written.len(), keep, b);
    lemma_chosen(written.len(), keep);
}

/// A merge takes out every file of every bin, and no other; it takes out no delete file,
/// since no merged file has one.
pub proof fn lemma_merge_takes_out(
    files: Seq<DuckLakeTableFile>,
    bins: Seq<Seq<int>>,
    shapes: Seq<MergeOutput>,
    written: Seq<Option<i64>>,
    commit: CompactionCommit,
    b: int,
    i: int,
)
    requires
        is_merge_commit(files, bins, shapes, written, commit),
    ensures
        0 <= b < bins.len() && 0 <= i < bins[b].len() ==> exists|k: int|
            0 <= k < commit.sources@.len() && (#[trigger] commit.sources@[k]).data_file_id
                == files[bins[b][i]].data_file_id,
        forall|k: int|
            0 <= k < commit.sources@.len() ==> (#[trigger] commit.sources@[k]).delete_file_id
                is None && exists|c: int, j: int|
                0 <= c < bins.len() && 0 <= j < bins[c].len() && files[#[trigger] bins[c][j]].data_file_id
                    == commit.sources@[k].data_file_id,
        commit.sources@.len() == bins.flatten().len(),
        commit.retirement is Remove,
{
    lemma_concatenated_is_flat(bins);
    let all = concatenated(bins);
    if 0 <= b < bins.len() && 0 <= i < bins[b].len() {
        lemma_concatenated_holds(bins, b, i);
        let k = choose|k: int| 0 <= k < all.len() && all[k] == bins[b][i];
        assert(commit.sources@[k].data_file_id == files[bins[b][i]].data_file_id);
    }
    lemma_concatenated(bins);
    assert forall|k: int| 0 <= k < commit.sources@.len() implies (
    #[trigger] commit.sources@[k]).delete_file_id is None && exists|c: int, j: int|
        0 <= c < bins.len() && 0 <= j < bins[c].len() && files[#[trigger] bins[c][j]].data_file_id
            == commit.sources@[k].data_file_id by {
        assert(all.contains(all[k]));
        let (c, j) = choose|c: int, j: int|
            0 <= c < bins.len() && 0 <= j < bins[c].len() && #[trigger] bins[c][j] == all[k];
        assert(files[bins[c][j]].data_file_id == commit.sources@[k].data_file_id);
    }
}

/// A merge adds one file for each bin of which rows were written, in the order of the
/// bins, with the rows of that bin and under its identity, and none for the others. The
/// counts that it reports are those of the files it takes out, of the files it adds and
/// of the rows in these.
pub proof fn lemma_merge_adds(
    files: Seq<DuckLakeTableFile>,
    bins: Seq<Seq<int>>,
    shapes: Seq<MergeOutput>,
    written: Seq<Option<i64>>,
    commit: CompactionCommit,
    b: int,
)
    requires
        is_merge_commit(files, bins, shapes, written, commit),
    ensures
        0 <= b < written.len() ==> (written[b] is Some <==> exists|k: int|
            0 <= k < commit.outputs@.len() && (#[trigger] commit.outputs@[k]).replaces == b),
        forall|k: int, l: int|
            0 <= k < l < commit.outputs@.len() ==> (#[trigger] commit.outputs@[k]).replaces < (
            #[trigger] commit.outputs@[l]).replaces,
        forall|k: int|
            0 <= k < commit.outputs@.len() ==> ({
                let output = #[trigger] commit.outputs@[k];
                let shape = shapes[output.replaces as int];
                &&& output.replaces < written.len()
                &&& written[output.replaces as int] == Some(output.record_count)
                &&& output.partial_max == shape.partial_max
                &&& output.begin_snapshot == shape.begin_snapshot
                &&& output.partition_id == shape.partition_id
                &&& shape.partition_id is None ==> output.partition_values@.len() == 0
                &&& shape.partition_id is Some ==> output.partition_values@.len()
                    == shape.partition_values@.len()
                &&& forall|v: int|
                    0 <= v < output.partition_values@.len() && v <= i32::MAX ==> (
                    #[trigger] output.partition_values@[v]).0 == v && output.partition_values@[v].1
                        == shape.partition_values@[v]
            }),
        commit.result.files_processed == commit.sources@.len(),
        commit.result.files_created == commit.outputs@.len(),
        commit.result.rows_written == rows_recorded(commit.outputs@),
{
    let outputs = written_positions(written);
    lemma_written(written, b);
    assert forall|k: int| 0 <= k < commit.outputs@.len() implies ({
        let output = #[trigger] commit.outputs@[k];
        &&& output.replaces == outputs[k]
        &&& output.record_count == written[outputs[k]]->0
        &&& 0 <= outputs[k] < written.len()
        &&& written[outputs[k]] is Some
    }) by {
        lemma_written(written, outputs[k]);
        assert(outputs.contains(outputs[k]));
    }
    if 0 <= b < written.len() {
        if written[b] is Some {
            let k = choose|k: int| 0 <= k < outputs.len() && outputs[k] == b;
            assert(commit.outputs@[k].replaces == b);
        } else {
            assert forall|k: int| 0 <= k < commit.outputs@.len() implies (
            #[trigger] commit.outputs@[k]).replaces != b by {
                assert(outputs.contains(outputs[k]));
            }
        }
    }
    assert(written.take(written.len() as int) =~= written);
    lemma_rows_recorded(written, commit.outputs@, written.len() as int);
}

/// Of the files that were asked for a rewrite takes all, and no other. Where none was
/// asked for it takes those that have deletes, of whose rows enough are deleted; a file
/// without rows is none of them. They are taken in the order they stand in.
pub proof fn lemma_rewritten_files(
    files: Seq<DuckLakeTableFile>,
    selected: Option<Seq<i64>>,
    over_threshold: Seq<bool>,
    i: int,
)
    requires
        over_threshold.len() == files.len(),
        0 <= i < files.len(),
    ensures
        selected matches Some(ids) ==> (rewrite_positions(
            files,
            selected,
            over_threshold,
        ).contains(i) <==> exists|k: int|
            0 <= k < ids.len() && #[trigger] ids[k] == files[i].data_file_id),
        selected is None ==> (rewrite_positions(files, selected, over_threshold).contains(i)
            <==> files[i].delete_file_id is Some && over_threshold[i] && files[i].max_row_count
            is Some && files[i].max_row_count->0 > 0),
        ascending(rewrite_positions(files, selected, over_threshold)),
        forall|k: int|
            0 <= k < rewrite_positions(files, selected, over_threshold).len() ==> 0
                <= #[trigger] rewrite_positions(files, selected, over_threshold)[k] < files.len(),
{
    let keep = |p: int| is_rewrite_candidate(files[p], selected, over_threshold[p]);
    lemma_chosen_members(files.len(), keep, i);
    lemma_chosen(files.len(), keep);
    if let Some(ids) = selected {
        if exists|k: int| 0 <= k < ids.len() && #[trigger] ids[k] == files[i].data_file_id {
            let k = choose|k: int| 0 <= k < ids.len() && #[trigger] ids[k] == files[i].data_file_id;
            assert(ids.contains(ids[k]));
        }
    }
}

/// A rewrite takes out each of its files, together with the delete file it has, and
/// leaves them to the snapshots before. It adds one file for each of which a row is
/// left, in their order, and this one belongs to the same partition and begins with the
/// commit.
pub proof fn lemma_rewrite_commit(
    files: Seq<DuckLakeTableFile>,
    candidates: Seq<int>,
    written: Seq<Option<i64>>,
    commit: CompactionCommit,
    c: int,
)
    requires
        is_rewrite_commit(files, candidates, written, commit),
        written.len() == candidates.len(),
        0 <= c < candidates.len(),
    ensures
        commit.sources@.len() == candidates.len(),
        commit.sources@[c].data_file_id == files[candidates[c]].data_file_id,
        commit.sources@[c].delete_file_id == files[candidates[c]].delete_file_id,
        commit.retirement is Retire,
        written[c] is Some <==> exists|k: int|
            0 <= k < commit.outputs@.len() && (#[trigger] commit.outputs@[k]).replaces == c,
        forall|k: int, l: int|
            0 <= k < l < commit.outputs@.len() ==> (#[trigger] commit.outputs@[k]).replaces < (
            #[trigger] commit.outputs@[l]).replaces,
        forall|k: int|
            0 <= k < commit.outputs@.len() ==> ({
                let output = #[trigger] commit.outputs@[k];
                let file = files[candidates[output.replaces as int]];
                let values = crate::compaction::ordered_values(file.partition_values@);
                &&& output.replaces < written.len()
                &&& written[output.replaces as int] == Some(output.record_count)
                &&& output.partial_max is None
                &&& output.begin_snapshot is None
                &&& output.partition_id == file.partition_id
                &&& file.partition_id is None ==> output.partition_values@.len() == 0
                &&& file.partition_id is Some ==> output.partition_values@.len() == values.len()
                &&& forall|v: int|
                    0 <= v < output.partition_values@.len() && v <= i32::MAX ==> (
                    #[trigger] output.partition_values@[v]).0 == v && crate::order::opt_view(
                        output.partition_values@[v].1,
                    ) == values[v]
            }),
        commit.result.files_processed == commit.sources@.len(),
        commit.result.files_created == commit.outputs@.len(),
        commit.result.rows_written == rows_recorded(commit.outputs@),
{
    let outputs = written_positions(written);
    lemma_written(written, c);
    assert(commit.sources@[c] == (CompactionSourceFile {
        data_file_id: files[candidates[c]].data_file_id,
        delete_file_id: files[candidates[c]].delete_file_id,
    }));
    assert forall|k: int| 0 <= k < commit.outputs@.len() implies ({
        let output = #[trigger] commit.outputs@[k];
        &&& output.replaces == outputs[k]
        &&& output.record_count == written[outputs[k]]->0
        &&& 0 <= outputs[k] < written.len()
        &&& written[outputs[k]] is Some
    }) by {
        lemma_written(written, outputs[k]);
        assert(outputs.contains(outputs[k]));
    }
    if written[c] is Some {
        let k = choose|k: int| 0 <= k < outputs.len() && outputs[k] == c;
        assert(commit.outputs@[k].replaces == c);
    } else {
        assert forall|k: int| 0 <= k < commit.outputs@.len() implies (
        #[trigger] commit.outputs@[k]).replaces != c by {
            assert(outputs.contains(outputs[k]));
        }
    }
    assert(written.take(written.len() as int) =~= written);
    lemma_rows_recorded(written, commit.outputs@, written.len() as int);
}

} // verus!
