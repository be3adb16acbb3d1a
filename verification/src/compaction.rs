//! Which files a compaction rewrites, and what it records of the result.
//!
//! A compaction changes where rows are stored, never which rows a snapshot
//! shows. What it does is settled from catalog metadata alone: the functions
//! here choose the files, say how each output is to be stamped, and assemble
//! the commit. Reading and writing the files is the caller's part.

use vstd::prelude::*;
use crate::metadata::{clone_text, DuckLakeTableFile};
use crate::order::{ascending, ints, opt_view, opt_views, order_values, positions, sort_items,
    stably_sorted, total_preorder, values_order, Ranked};

verus! {

/// How adjacent small files are merged.
#[derive(Debug, Clone, PartialEq, Eq)]
pub struct MergeOptions {
    /// Adjacent small files, in the order of schema version and file id, are packed
    /// together until they reach this many bytes. A file already this large is left
    /// alone.
    pub target_file_size: u64,
    /// At most this many files are considered in one call; they are taken in the
    /// order of schema version and file id.
    pub max_merged_files: usize,
    /// Files smaller than this many bytes are left alone.
    pub min_file_size: u64,
}

/// 512 MiB: the file size that writes and merges aim for.
pub const DEFAULT_TARGET_FILE_SIZE: u64 = 536870912;

impl Default for MergeOptions {
    fn default() -> (options: Self)
        ensures
            options.target_file_size == 512 * 1024 * 1024,
            options.max_merged_files == 1024,
            options.min_file_size == 0,
    {
        MergeOptions {
            target_file_size: DEFAULT_TARGET_FILE_SIZE,
            max_merged_files: 1024,
            min_file_size: 0,
        }
    }
}

/// What a compaction did.
#[derive(Debug, Clone, PartialEq, Eq)]
pub struct CompactionResult {
    /// How many source files were retired.
    pub files_processed: usize,
    /// How many new files were written.
    pub files_created: usize,
    /// How many rows the new files hold.
    pub rows_written: i64,
}

impl CompactionResult {
    /// The result of a compaction that found nothing to do.
    pub fn empty() -> (result: Self)
        ensures
            result.files_processed == 0,
            result.files_created == 0,
            result.rows_written == 0,
    {
        CompactionResult { files_processed: 0, files_created: 0, rows_written: 0 }
    }

    /// Whether any source file was retired.
    pub fn did_work(&self) -> (worked: bool)
        ensures
            worked == (self.files_processed > 0),
    {
        self.files_processed > 0
    }
}

// ---------------------------------------------------------------------------
// Partition identity
// ---------------------------------------------------------------------------

/// A file's partition: the specification it was written under, and its values
/// in the order of their key indexes.
pub type PartitionKeyView = (Option<i64>, Seq<Option<Seq<char>>>);

/// Whether the value at `a` belongs at or before the value at `b`.
pub open spec fn value_index_order(values: Seq<(i32, Option<String>)>) -> spec_fn(
    int,
    int,
) -> bool {
    |a: int, b: int| values[a].0 <= values[b].0
}

/// The partition values of a file, ordered by key index; values with the same
/// index keep the order they were recorded in.
pub open spec fn ordered_values(values: Seq<(i32, Option<String>)>) -> Seq<Option<Seq<char>>> {
    stably_sorted(positions(values.len()), value_index_order(values)).map_values(
        |p: int| opt_view(values[p].1),
    )
}

/// The partition identity of a file.
pub open spec fn partition_key_view(file: DuckLakeTableFile) -> PartitionKeyView {
    (file.partition_id, ordered_values(file.partition_values@))
}

/// The partition identity of `file`: files may be merged only where it agrees.
pub fn partition_key(file: &DuckLakeTableFile) -> (key: (Option<i64>, Vec<Option<String>>))
    ensures
        (key.0, opt_views(key.1@)) == partition_key_view(*file),
{
    let values = &file.partition_values;
    let mut indexes: Vec<i32> = Vec::new();
    let mut items: Vec<usize> = Vec::new();
    let mut i: usize = 0;
    while i < values.len()
        invariant
            i <= values@.len(),
            *values == file.partition_values,
            indexes@.len() == i,
            items@.len() == i,
            forall|k: int| 0 <= k < i ==> #[trigger] indexes@[k] == values@[k].0,
            forall|k: int| 0 <= k < i ==> #[trigger] items@[k] == k,
        decreases values@.len() - i,
    {
        indexes.push(values[i].0);
        items.push(i);
        i = i + 1;
    }
    let ghost before = value_index_order(values@);
    proof {
        assert(total_preorder(before));
        assert(ints(items@) =~= positions(values@.len()));
    }
    let order = sort_items(&indexes, &items, Ghost(before));
    let mut sorted: Vec<Option<String>> = Vec::new();
    let mut k: usize = 0;
    while k < order.len()
        invariant
            k <= order@.len(),
            *values == file.partition_values,
            forall|j: int| 0 <= j < order@.len() ==> (#[trigger] order@[j]) < values@.len(),
            sorted@.len() == k,
            forall|j: int| 0 <= j < k ==> #[trigger] sorted@[j] == values@[order@[j] as int].1,
        decreases order@.len() - k,
    {
        let value = clone_text(&values[order[k]].1);
        sorted.push(value);
        k = k + 1;
    }
    assert(opt_views(sorted@) =~= ordered_values(file.partition_values@)) by {
        assert forall|j: int| 0 <= j < sorted@.len() implies #[trigger] opt_views(sorted@)[j]
            == ordered_values(file.partition_values@)[j] by {
            assert(ints(order@)[j] == order@[j] as int);
        }
    }
    (file.partition_id, sorted)
}

/// The pairs of key index and value that record `values` as the values of the
/// keys `0`, `1`, and so on.
pub fn partition_value_pairs(values: &Vec<Option<String>>) -> (pairs: Vec<(i32, Option<String>)>)
    ensures
        pairs@.len() == values@.len(),
        forall|i: int| 0 <= i < pairs@.len() ==> #[trigger] pairs@[i] == (i as i32, values@[i]),
{
    let mut pairs: Vec<(i32, Option<String>)> = Vec::new();
    let mut i: usize = 0;
    while i < values.len()
        invariant
            i <= values@.len(),
            pairs@.len() == i,
            forall|k: int| 0 <= k < i ==> #[trigger] pairs@[k] == (k as i32, values@[k]),
        decreases values@.len() - i,
    {
        #[verifier::truncate]
        let index: i32 = i as i32;
        pairs.push((index, clone_text(&values[i])));
        i = i + 1;
    }
    pairs
}

// ---------------------------------------------------------------------------
// Choosing what to merge
// ---------------------------------------------------------------------------

/// A file size as the catalog records it, read as an unsigned number.
pub open spec fn unsigned_size(size: i64) -> int {
    if size >= 0 {
        size as int
    } else {
        size + 0x1_0000_0000_0000_0000
    }
}

fn size_as_unsigned(size: i64) -> (out: u64)
    ensures
        out == unsigned_size(size),
{
    if size >= 0 {
        size as u64
    } else {
        (size - i64::MIN) as u64 + 0x8000_0000_0000_0000
    }
}

/// Whether a file may be merged: it has no deleted rows, it is not itself the
/// product of a merge across snapshots, its origin is known, and its size is in
/// range.
pub open spec fn is_merge_candidate(file: DuckLakeTableFile, options: MergeOptions) -> bool {
    &&& file.delete_file_id is None
    &&& file.partial_max is None
    &&& file.begin_snapshot is Some
    &&& file.schema_version is Some
    &&& options.min_file_size <= unsigned_size(file.file.file_size_bytes)
        < options.target_file_size
}

/// The positions of the files that may be merged.
pub open spec fn merge_candidates(files: Seq<DuckLakeTableFile>, options: MergeOptions) -> Seq<
    int,
> {
    positions(files.len()).filter(|i: int| is_merge_candidate(files[i], options))
}

/// What files are merged in the order of: schema version, partition, file id.
pub type MergeKeyView = (i64, Option<i64>, Seq<Option<Seq<char>>>, i64);

/// The sign of `a - b`.
pub open spec fn int_order(a: int, b: int) -> int {
    if a < b {
        -1
    } else if a > b {
        1
    } else {
        0
    }
}

/// Absent numbers stand in front of present ones.
pub open spec fn opt_int_order(a: Option<i64>, b: Option<i64>) -> int {
    match (a, b) {
        (None, None) => 0,
        (None, Some(_)) => -1,
        (Some(_), None) => 1,
        (Some(x), Some(y)) => int_order(x as int, y as int),
    }
}

/// How one merge key stands to another.
pub open spec fn merge_key_order(a: MergeKeyView, b: MergeKeyView) -> int {
    if a.0 != b.0 {
        int_order(a.0 as int, b.0 as int)
    } else if a.1 != b.1 {
        opt_int_order(a.1, b.1)
    } else if values_order(a.2, b.2) != 0 {
        values_order(a.2, b.2)
    } else {
        int_order(a.3 as int, b.3 as int)
    }
}

/// The merge key of a file.
pub open spec fn merge_key_view(file: DuckLakeTableFile) -> MergeKeyView {
    (
        match file.schema_version {
            Some(version) => version,
            None => 0,
        },
        file.partition_id,
        ordered_values(file.partition_values@),
        file.data_file_id,
    )
}

/// The order of files by merge key.
pub open spec fn merge_before(files: Seq<DuckLakeTableFile>) -> spec_fn(int, int) -> bool {
    |a: int, b: int| merge_key_order(merge_key_view(files[a]), merge_key_view(files[b])) <= 0
}

proof fn lemma_merge_key_total(a: MergeKeyView, b: MergeKeyView)
    ensures
        merge_key_order(a, b) <= 0 || merge_key_order(b, a) <= 0,
{
    crate::order::lemma_values_order(a.2, b.2);
}

proof fn lemma_merge_key_transitive(a: MergeKeyView, b: MergeKeyView, c: MergeKeyView)
    requires
        merge_key_order(a, b) <= 0,
        merge_key_order(b, c) <= 0,
    ensures
        merge_key_order(a, c) <= 0,
{
    crate::order::lemma_values_order(a.2, b.2);
    crate::order::lemma_values_order(b.2, c.2);
    crate::order::lemma_values_order(a.2, c.2);
    if values_order(a.2, b.2) <= 0 && values_order(b.2, c.2) <= 0 {
        crate::order::lemma_values_order_transitive(a.2, b.2, c.2);
    }
}

pub proof fn lemma_merge_before_preorder(files: Seq<DuckLakeTableFile>)
    ensures
        total_preorder(merge_before(files)),
{
    let before = merge_before(files);
    assert forall|a: int, b: int| #[trigger] before(a, b) || before(b, a) by {
        lemma_merge_key_total(merge_key_view(files[a]), merge_key_view(files[b]));
    }
    assert forall|a: int, b: int, c: int| #[trigger]
        before(a, b) && #[trigger] before(b, c) implies before(a, c) by {
        lemma_merge_key_transitive(
            merge_key_view(files[a]),
            merge_key_view(files[b]),
            merge_key_view(files[c]),
        );
    }
}

struct MergeKey {
    version: i64,
    partition_id: Option<i64>,
    values: Vec<Option<String>>,
    data_file_id: i64,
}

impl MergeKey {
    spec fn key(self) -> MergeKeyView {
        (self.version, self.partition_id, opt_views(self.values@), self.data_file_id)
    }
}

impl Ranked for MergeKey {
    closed spec fn precedes(self, other: Self) -> bool {
        merge_key_order(self.key(), other.key()) <= 0
    }

    proof fn lemma_total(a: Self, b: Self) {
        lemma_merge_key_total(a.key(), b.key());
    }

    proof fn lemma_transitive(a: Self, b: Self, c: Self) {
        lemma_merge_key_transitive(a.key(), b.key(), c.key());
    }

    fn at_or_before(&self, other: &Self) -> (before: bool) {
        if self.version != other.version {
            return self.version < other.version;
        }
        match (self.partition_id, other.partition_id) {
            (None, Some(_)) => {
                return true;
            },
            (Some(_), None) => {
                return false;
            },
            (Some(a), Some(b)) => {
                if a != b {
                    return a < b;
                }
            },
            (None, None) => {},
        }
        let order: i32 = order_values(&self.values, &other.values);
        if order != 0 {
            return order < 0;
        }
        self.data_file_id <= other.data_file_id
    }
}

/// What files are taken in the order of: schema version, file id.
pub open spec fn taking_key(file: DuckLakeTableFile) -> (int, int) {
    (
        match file.schema_version {
            Some(version) => version as int,
            None => 0,
        },
        file.data_file_id as int,
    )
}

/// Whether one pair of numbers stands at or before another, the first number first.
pub open spec fn pair_at_or_before(a: (int, int), b: (int, int)) -> bool {
    a.0 < b.0 || (a.0 == b.0 && a.1 <= b.1)
}

/// The order that files are taken in.
pub open spec fn taken_before(files: Seq<DuckLakeTableFile>) -> spec_fn(int, int) -> bool {
    |a: int, b: int| pair_at_or_before(taking_key(files[a]), taking_key(files[b]))
}

struct TakingKey {
    version: i64,
    data_file_id: i64,
}

impl TakingKey {
    spec fn key(self) -> (int, int) {
        (self.version as int, self.data_file_id as int)
    }
}

impl Ranked for TakingKey {
    closed spec fn precedes(self, other: Self) -> bool {
        pair_at_or_before(self.key(), other.key())
    }

    proof fn lemma_total(a: Self, b: Self) {
    }

    proof fn lemma_transitive(a: Self, b: Self, c: Self) {
    }

    fn at_or_before(&self, other: &Self) -> (before: bool) {
        self.version < other.version || (self.version == other.version && self.data_file_id
            <= other.data_file_id)
    }
}

/// The files that one call considers: those that may be merged, by schema version
/// and file id, cut off at the most that it takes.
pub open spec fn taken(files: Seq<DuckLakeTableFile>, options: MergeOptions) -> Seq<int> {
    let sorted = stably_sorted(merge_candidates(files, options), taken_before(files));
    if sorted.len() > options.max_merged_files {
        sorted.take(options.max_merged_files as int)
    } else {
        sorted
    }
}

/// The files that one call considers, in merge order.
pub open spec fn merge_sequence(files: Seq<DuckLakeTableFile>, options: MergeOptions) -> Seq<int> {
    stably_sorted(
        positions(files.len()).filter(|i: int| taken(files, options).contains(i)),
        merge_before(files),
    )
}

/// One more position comes behind those that were filtered before it.
proof fn lemma_filter_step(n: nat, wanted: spec_fn(int) -> bool)
    ensures
        positions(n + 1).filter(wanted) == if wanted(n as int) {
            positions(n).filter(wanted).push(n as int)
        } else {
            positions(n).filter(wanted)
        },
{
    let next = positions(n + 1);
    assert(next.drop_last() =~= positions(n));
    assert(next.last() == n as int);
    reveal(Seq::filter);
}

fn taken_of(files: &Vec<DuckLakeTableFile>, options: &MergeOptions) -> (out: Vec<usize>)
    ensures
        ints(out@) == taken(files@, *options),
        forall|i: int| 0 <= i < out@.len() ==> (#[trigger] out@[i]) < files@.len(),
{
    let mut keys: Vec<TakingKey> = Vec::new();
    let mut items: Vec<usize> = Vec::new();
    let ghost wanted = |i: int| is_merge_candidate(files@[i], *options);
    let mut i: usize = 0;
    assert(ints(items@) =~= positions(0).filter(wanted));
    while i < files.len()
        invariant
            i <= files@.len(),
            keys@.len() == i,
            wanted == (|i: int| is_merge_candidate(files@[i], *options)),
            forall|k: int| 0 <= k < i ==> (#[trigger] keys@[k]).key() == taking_key(files@[k]),
            ints(items@) == positions(i as nat).filter(wanted),
            forall|k: int| 0 <= k < items@.len() ==> (#[trigger] items@[k]) < i,
            ascending(ints(items@)),
        decreases files@.len() - i,
    {
        let file = &files[i];
        let version: i64 = match file.schema_version {
            Some(version) => version,
            None => 0,
        };
        keys.push(TakingKey { version, data_file_id: file.data_file_id });
        let size: u64 = size_as_unsigned(file.file.file_size_bytes);
        let ghost before = items@;
        proof {
            lemma_filter_step(i as nat, wanted);
        }
        if file.delete_file_id.is_none() && file.partial_max.is_none()
            && file.begin_snapshot.is_some() && file.schema_version.is_some() && size
            >= options.min_file_size && size < options.target_file_size {
            assert(wanted(i as int));
            items.push(i);
            assert(ints(items@) =~= ints(before).push(i as int));
        } else {
            assert(!wanted(i as int));
        }
        i = i + 1;
    }
    let sorted = sort_items(&keys, &items, Ghost(taken_before(files@)));
    let mut out: Vec<usize> = Vec::new();
    let mut k: usize = 0;
    while k < sorted.len() && k < options.max_merged_files
        invariant
            k <= sorted@.len(),
            k <= options.max_merged_files,
            out@ == sorted@.take(k as int),
            forall|j: int| 0 <= j < sorted@.len() ==> (#[trigger] sorted@[j]) < files@.len(),
        decreases sorted@.len() - k,
    {
        out.push(sorted[k]);
        k = k + 1;
    }
    assert(ints(out@) =~= taken(files@, *options));
    out
}

/// For each of `n` positions whether it is one of `items`.
fn marks_of(items: &Vec<usize>, n: usize) -> (marks: Vec<bool>)
    requires
        forall|i: int| 0 <= i < items@.len() ==> (#[trigger] items@[i]) < n,
    ensures
        marks@.len() == n,
        forall|p: int| 0 <= p < n ==> #[trigger] marks@[p] == ints(items@).contains(p),
{
    let mut marks: Vec<bool> = Vec::new();
    let mut p: usize = 0;
    while p < n
        invariant
            p <= n,
            marks@.len() == p,
            forall|q: int| 0 <= q < p ==> !#[trigger] marks@[q],
        decreases n - p,
    {
        marks.push(false);
        p = p + 1;
    }
    let mut k: usize = 0;
    while k < items.len()
        invariant
            k <= items@.len(),
            marks@.len() == n,
            forall|i: int| 0 <= i < items@.len() ==> (#[trigger] items@[i]) < n,
            forall|q: int|
                0 <= q < n ==> #[trigger] marks@[q] == ints(items@).take(k as int).contains(q),
        decreases items@.len() - k,
    {
        let ghost before = marks@;
        marks.set(items[k], true);
        proof {
            let now = ints(items@).take(k as int);
            let next = ints(items@).take(k + 1);
            assert(next =~= now.push(items@[k as int] as int));
            assert forall|q: int| 0 <= q < n implies #[trigger] marks@[q] == next.contains(q) by {
                assert(before[q] == now.contains(q));
                if now.contains(q) {
                    let j = choose|j: int| 0 <= j < now.len() && now[j] == q;
                    assert(next[j] == q);
                }
                if q == items@[k as int] {
                    assert(next[k as int] == q);
                }
            }
        }
        k = k + 1;
    }
    assert(ints(items@).take(items@.len() as int) =~= ints(items@));
    marks
}

fn merge_sequence_of(files: &Vec<DuckLakeTableFile>, options: &MergeOptions) -> (out: Vec<usize>)
    ensures
        ints(out@) == merge_sequence(files@, *options),
        forall|i: int| 0 <= i < out@.len() ==> (#[trigger] out@[i]) < files@.len(),
{
    let considered = taken_of(files, options);
    let marks = marks_of(&considered, files.len());
    let mut keys: Vec<MergeKey> = Vec::new();
    let mut items: Vec<usize> = Vec::new();
    let ghost wanted = |i: int| taken(files@, *options).contains(i);
    let mut i: usize = 0;
    assert(ints(items@) =~= positions(0).filter(wanted));
    while i < files.len()
        invariant
            i <= files@.len(),
            keys@.len() == i,
            marks@.len() == files@.len(),
            wanted == (|i: int| taken(files@, *options).contains(i)),
            forall|p: int| 0 <= p < files@.len() ==> #[trigger] marks@[p] == wanted(p),
            forall|k: int| 0 <= k < i ==> (#[trigger] keys@[k]).key() == merge_key_view(files@[k]),
            ints(items@) == positions(i as nat).filter(wanted),
            forall|k: int| 0 <= k < items@.len() ==> (#[trigger] items@[k]) < i,
            ascending(ints(items@)),
        decreases files@.len() - i,
    {
        let file = &files[i];
        let (partition_id, values) = partition_key(file);
        let version: i64 = match file.schema_version {
            Some(version) => version,
            None => 0,
        };
        keys.push(MergeKey { version, partition_id, values, data_file_id: file.data_file_id });
        let ghost before = items@;
        proof {
            lemma_filter_step(i as nat, wanted);
        }
        if marks[i] {
            items.push(i);
            assert(ints(items@) =~= ints(before).push(i as int));
        }
        i = i + 1;
    }
    proof {
        lemma_merge_before_preorder(files@);
    }
    sort_items(&keys, &items, Ghost(merge_before(files@)))
}

// ---------------------------------------------------------------------------
// Packing files into bins
// ---------------------------------------------------------------------------

/// Whether two files may share an output: same schema version, same partition.
pub open spec fn same_group(a: DuckLakeTableFile, b: DuckLakeTableFile) -> bool {
    &&& a.schema_version == b.schema_version
    &&& partition_key_view(a) == partition_key_view(b)
}

/// Where the bin that starts at `start` ends, having taken the files before
/// `at`, which hold `running` bytes: at the end of the sequence, at the first
/// file of another group, or behind the file that reaches the target size.
pub open spec fn bin_end(
    files: Seq<DuckLakeTableFile>,
    sequence: Seq<int>,
    target: int,
    start: int,
    at: int,
    running: int,
) -> int
    decreases sequence.len() - at,
{
    if at >= sequence.len() || !same_group(files[sequence[start]], files[sequence[at]]) {
        at
    } else {
        let reached = running + unsigned_size(files[sequence[at]].file.file_size_bytes);
        if reached >= target {
            at + 1
        } else {
            bin_end(files, sequence, target, start, at + 1, reached)
        }
    }
}

/// The bins of the sequence from `start` on that hold two files or more.
pub open spec fn bins_from(
    files: Seq<DuckLakeTableFile>,
    sequence: Seq<int>,
    target: int,
    start: int,
) -> Seq<Seq<int>>
    decreases sequence.len() - start,
{
    if start < 0 || start >= sequence.len() {
        Seq::empty()
    } else {
        let end = bin_end(files, sequence, target, start, start, 0);
        if !(start < end <= sequence.len()) {
            Seq::empty()
        } else if end - start >= 2 {
            seq![sequence.subrange(start, end)] + bins_from(files, sequence, target, end)
        } else {
            bins_from(files, sequence, target, end)
        }
    }
}

/// The bins of files, by position, that a merge combines into one file each.
pub open spec fn merge_bins(files: Seq<DuckLakeTableFile>, options: MergeOptions) -> Seq<Seq<int>> {
    bins_from(files, merge_sequence(files, options), options.target_file_size as int, 0)
}

/// A vector of bins as sequences of positions.
pub open spec fn bins_view(bins: Seq<Vec<usize>>) -> Seq<Seq<int>> {
    bins.map_values(|bin: Vec<usize>| ints(bin@))
}

proof fn lemma_bin_end(
    files: Seq<DuckLakeTableFile>,
    sequence: Seq<int>,
    target: int,
    start: int,
    at: int,
    running: int,
)
    requires
        0 <= start <= at <= sequence.len(),
    ensures
        at <= bin_end(files, sequence, target, start, at, running) <= sequence.len(),
        forall|i: int|
            at <= i < bin_end(files, sequence, target, start, at, running) ==> same_group(
                files[sequence[start]],
                files[#[trigger] sequence[i]],
            ),
    decreases sequence.len() - at,
{
    if at >= sequence.len() || !same_group(files[sequence[start]], files[sequence[at]]) {
    } else {
        let reached = running + unsigned_size(files[sequence[at]].file.file_size_bytes);
        if reached < target {
            lemma_bin_end(files, sequence, target, start, at + 1, reached);
        }
    }
}

/// Whether two files may share an output.
fn groups_agree(a: &DuckLakeTableFile, b: &DuckLakeTableFile) -> (agree: bool)
    ensures
        agree == same_group(*a, *b),
{
    if a.schema_version != b.schema_version || a.partition_id != b.partition_id {
        return false;
    }
    let (_, a_values) = partition_key(a);
    let (_, b_values) = partition_key(b);
    proof {
        crate::order::lemma_values_order(opt_views(a_values@), opt_views(b_values@));
    }
    order_values(&a_values, &b_values) == 0
}

/// The bins of files that a merge combines into one file each, in merge order.
/// A bin holds two files or more, all of one schema version and partition.
pub fn plan_merge(files: &Vec<DuckLakeTableFile>, options: &MergeOptions) -> (bins: Vec<Vec<usize>>)
    ensures
        bins_view(bins@) == merge_bins(files@, *options),
        forall|b: int, i: int|
            0 <= b < bins@.len() && 0 <= i < bins@[b]@.len() ==> (#[trigger] bins@[b]@[i])
                < files@.len(),
{
    let sequence = merge_sequence_of(files, options);
    let ghost target = options.target_file_size as int;
    let mut bins: Vec<Vec<usize>> = Vec::new();
    let mut start: usize = 0;
    assert(bins_view(bins@) =~= Seq::empty());
    while start < sequence.len()
        invariant
            start <= sequence@.len(),
            target == options.target_file_size,
            forall|i: int| 0 <= i < sequence@.len() ==> (#[trigger] sequence@[i]) < files@.len(),
            forall|b: int, i: int|
                0 <= b < bins@.len() && 0 <= i < bins@[b]@.len() ==> (#[trigger] bins@[b]@[i])
                    < files@.len(),
            bins_view(bins@) + bins_from(files@, ints(sequence@), target, start as int)
                =~= bins_from(files@, ints(sequence@), target, 0),
        decreases sequence@.len() - start,
    {
        let ghost end = bin_end(files@, ints(sequence@), target, start as int, start as int, 0);
        let mut bin: Vec<usize> = Vec::new();
        let mut running: u128 = 0;
        let mut at: usize = start;
        let mut full = false;
        while !full && at < sequence.len() && groups_agree(
            &files[sequence[start]],
            &files[sequence[at]],
        )
            invariant
                start <= at <= sequence@.len(),
                start < sequence@.len(),
                target == options.target_file_size,
                forall|i: int|
                    0 <= i < sequence@.len() ==> (#[trigger] sequence@[i]) < files@.len(),
                bin@ =~= sequence@.subrange(start as int, at as int),
                running <= 0xffff_ffff_ffff_ffff * (at - start),
                at == start ==> !full,
                !full ==> end == bin_end(
                    files@,
                    ints(sequence@),
                    target,
                    start as int,
                    at as int,
                    running as int,
                ),
                full ==> end == at,
                at - start <= usize::MAX,
            decreases (sequence@.len() - at) * 2 + if full {
                0int
            } else {
                1
            },
        {
            bin.push(sequence[at]);
            assert(running + 0xffff_ffff_ffff_ffff <= u128::MAX) by (nonlinear_arith)
                requires
                    running <= 0xffff_ffff_ffff_ffff * (at - start),
                    at - start <= 0xffff_ffff_ffff_ffff,
            ;
            running = running + size_as_unsigned(files[sequence[at]].file.file_size_bytes) as u128;
            assert(running <= 0xffff_ffff_ffff_ffff * (at + 1 - start)) by (nonlinear_arith)
                requires
                    running <= 0xffff_ffff_ffff_ffff * (at - start) + 0xffff_ffff_ffff_ffff,
            ;
            at = at + 1;
            full = running >= options.target_file_size as u128;
        }
        assert(end == at);
        let ghost before = bins@;
        proof {
            lemma_bin_end(files@, ints(sequence@), target, start as int, start as int, 0);
            assert(ints(bin@) =~= ints(sequence@).subrange(start as int, end));
        }
        if bin.len() >= 2 {
            bins.push(bin);
            proof {
                let rest = bins_from(files@, ints(sequence@), target, end);
                assert(bins_view(bins@) =~= bins_view(before).push(ints(bin@)));
                assert(bins_view(bins@) + rest =~= bins_view(before) + (seq![ints(bin@)] + rest));
            }
        }
        assert(bin@.len() > 0);
        start = at;
    }
    assert(bins_from(files@, ints(sequence@), target, start as int) =~= Seq::empty());
    assert(bins_view(bins@) =~= merge_bins(files@, *options));
    bins
}

// ---------------------------------------------------------------------------
// What every merge plan keeps
// ---------------------------------------------------------------------------

/// How many bytes the files at `bin` hold.
pub open spec fn total_size(files: Seq<DuckLakeTableFile>, bin: Seq<int>) -> int
    decreases bin.len(),
{
    if bin.len() == 0 {
        0
    } else {
        unsigned_size(files[bin[0]].file.file_size_bytes) + total_size(files, bin.skip(1))
    }
}

/// What holds of one bin of a merge plan: two files or more, all of which may be
/// merged, all of one schema version and partition, in the order of their ids,
/// and none behind the one with which the target size is reached.
pub open spec fn is_sound_bin(
    files: Seq<DuckLakeTableFile>,
    options: MergeOptions,
    bin: Seq<int>,
) -> bool {
    &&& bin.len() >= 2
    &&& forall|i: int|
        0 <= i < bin.len() ==> 0 <= #[trigger] bin[i] < files.len() && is_merge_candidate(
            files[bin[i]],
            options,
        )
    &&& forall|i: int, j: int|
        0 <= i < bin.len() && 0 <= j < bin.len() ==> same_group(
            files[#[trigger] bin[i]],
            files[#[trigger] bin[j]],
        )
    &&& forall|i: int, j: int|
        0 <= i < j < bin.len() ==> files[#[trigger] bin[i]].data_file_id
            <= files[#[trigger] bin[j]].data_file_id
    &&& total_size(files, bin.drop_last()) < options.target_file_size
}

/// Where the bin number `b` starts in the sequence.
spec fn bin_start(
    files: Seq<DuckLakeTableFile>,
    sequence: Seq<int>,
    target: int,
    start: int,
    b: int,
) -> int
    decreases sequence.len() - start,
{
    if start < 0 || start >= sequence.len() {
        start
    } else {
        let end = bin_end(files, sequence, target, start, start, 0);
        if !(start < end <= sequence.len()) {
            start
        } else if end - start >= 2 {
            if b == 0 {
                start
            } else {
                bin_start(files, sequence, target, end, b - 1)
            }
        } else {
            bin_start(files, sequence, target, end, b)
        }
    }
}

proof fn lemma_bin_end_size(
    files: Seq<DuckLakeTableFile>,
    sequence: Seq<int>,
    target: int,
    start: int,
    at: int,
    running: int,
)
    requires
        0 <= start <= at <= sequence.len(),
        at + 1 < bin_end(files, sequence, target, start, at, running),
    ensures
        running + total_size(
            files,
            sequence.subrange(at, bin_end(files, sequence, target, start, at, running) - 1),
        ) < target,
    decreases sequence.len() - at,
{
    let end = bin_end(files, sequence, target, start, at, running);
    lemma_bin_end(files, sequence, target, start, at, running);
    let first = unsigned_size(files[sequence[at]].file.file_size_bytes);
    let reached = running + first;
    assert(at < sequence.len() && same_group(files[sequence[start]], files[sequence[at]]));
    assert(reached < target);
    assert(end == bin_end(files, sequence, target, start, at + 1, reached));
    let bin = sequence.subrange(at, end - 1);
    let rest = sequence.subrange(at + 1, end - 1);
    assert(bin.len() > 0);
    assert(bin[0] == sequence[at]);
    assert(bin.skip(1) =~= rest);
    assert(total_size(files, bin) == first + total_size(files, rest));
    if at + 2 < end {
        lemma_bin_end_size(files, sequence, target, start, at + 1, reached);
        assert(reached + total_size(files, rest) < target);
    } else {
        assert(rest.len() == 0);
        assert(total_size(files, rest) == 0);
    }
}

/// Whether `bin` is cut out of the sequence at `lo`, at or behind `from`, as
/// packing demands.
spec fn is_cut(
    files: Seq<DuckLakeTableFile>,
    sequence: Seq<int>,
    target: int,
    from: int,
    bin: Seq<int>,
    lo: int,
) -> bool {
    &&& 0 <= from <= lo
    &&& lo + bin.len() <= sequence.len()
    &&& bin.len() >= 2
    &&& bin == sequence.subrange(lo, lo + bin.len())
    &&& forall|i: int| 0 <= i < bin.len() ==> same_group(files[bin[0]], files[#[trigger] bin[i]])
    &&& total_size(files, bin.drop_last()) < target
}

/// Whether the bin at `lo` ends before the bin at `hi` starts.
spec fn is_apart(bin: Seq<int>, lo: int, next: Seq<int>, hi: int) -> bool {
    &&& lo + bin.len() <= hi
    &&& next.len() > 0
}

proof fn lemma_bins_from(
    files: Seq<DuckLakeTableFile>,
    sequence: Seq<int>,
    target: int,
    start: int,
)
    requires
        0 <= start <= sequence.len(),
    ensures
        forall|b: int|
            0 <= b < bins_from(files, sequence, target, start).len() ==> is_cut(
                files,
                sequence,
                target,
                start,
                #[trigger] bins_from(files, sequence, target, start)[b],
                bin_start(files, sequence, target, start, b),
            ),
        forall|b: int, c: int|
            0 <= b < c < bins_from(files, sequence, target, start).len() ==> is_apart(
                #[trigger] bins_from(files, sequence, target, start)[b],
                bin_start(files, sequence, target, start, b),
                #[trigger] bins_from(files, sequence, target, start)[c],
                bin_start(files, sequence, target, start, c),
            ),
    decreases sequence.len() - start,
{
    let bins = bins_from(files, sequence, target, start);
    if start < sequence.len() {
        let end = bin_end(files, sequence, target, start, start, 0);
        lemma_bin_end(files, sequence, target, start, start, 0);
        if start < end <= sequence.len() {
            lemma_bins_from(files, sequence, target, end);
            let rest = bins_from(files, sequence, target, end);
            if end - start >= 2 {
                lemma_bin_end_size(files, sequence, target, start, start, 0);
                let first = sequence.subrange(start, end);
                assert(first.drop_last() =~= sequence.subrange(start, end - 1));
                assert(bins[0] == first);
                assert forall|i: int| 0 <= i < first.len() implies same_group(
                    files[first[0]],
                    files[#[trigger] first[i]],
                ) by {
                    assert(first[i] == sequence[start + i]);
                }
                assert(is_cut(files, sequence, target, start, first, start));
            }
            assert forall|b: int| 0 <= b < bins.len() implies is_cut(
                files,
                sequence,
                target,
                start,
                #[trigger] bins[b],
                bin_start(files, sequence, target, start, b),
            ) by {
                if end - start < 2 {
                    assert(bins[b] == rest[b]);
                } else if b > 0 {
                    assert(bins[b] == rest[b - 1]);
                }
            }
            assert forall|b: int, c: int| 0 <= b < c < bins.len() implies is_apart(
                #[trigger] bins[b],
                bin_start(files, sequence, target, start, b),
                #[trigger] bins[c],
                bin_start(files, sequence, target, start, c),
            ) by {
                if end - start < 2 {
                    assert(bins[b] == rest[b]);
                    assert(bins[c] == rest[c]);
                } else {
                    assert(bins[c] == rest[c - 1]);
                    if b > 0 {
                        assert(bins[b] == rest[b - 1]);
                    }
                }
            }
        }
    }
}

proof fn lemma_filtered_positions(n: nat, wanted: spec_fn(int) -> bool)
    ensures
        ascending(positions(n).filter(wanted)),
        forall|k: int|
            0 <= k < positions(n).filter(wanted).len() ==> 0 <= #[trigger] positions(n).filter(
                wanted,
            )[k] < n && wanted(positions(n).filter(wanted)[k]),
    decreases n,
{
    reveal(Seq::filter);
    if n > 0 {
        lemma_filtered_positions((n - 1) as nat, wanted);
        assert(positions(n).drop_last() =~= positions((n - 1) as nat));
        assert(positions(n).last() == n - 1);
    }
}

/// What has no duplicates and is all in `whole` is no longer than it.
proof fn lemma_within(part: Seq<int>, whole: Seq<int>)
    requires
        ascending(part),
        forall|k: int| 0 <= k < part.len() ==> whole.contains(#[trigger] part[k]),
    ensures
        part.len() <= whole.len(),
{
    assert(part.no_duplicates());
    part.unique_seq_to_set();
    whole.lemma_cardinality_of_set();
    vstd::set_lib::lemma_len_subset(part.to_set(), whole.to_set());
}

/// Files are taken by schema version and file id: as many of those that may be merged
/// as one call takes, and none of them behind one that is left.
pub proof fn lemma_taken(files: Seq<DuckLakeTableFile>, options: MergeOptions)
    ensures
        taken(files, options).no_duplicates(),
        taken(files, options).len() == if merge_candidates(files, options).len()
            > options.max_merged_files {
            options.max_merged_files as nat
        } else {
            merge_candidates(files, options).len()
        },
        forall|i: int|
            0 <= i < taken(files, options).len() ==> merge_candidates(files, options).contains(
                #[trigger] taken(files, options)[i],
            ) && is_merge_candidate(files[taken(files, options)[i]], options),
        forall|i: int, left: int|
            #![trigger taken(files, options)[i], merge_candidates(files, options).contains(left)]
            0 <= i < taken(files, options).len() && merge_candidates(files, options).contains(left)
                && !taken(files, options).contains(left) ==> pair_at_or_before(
                taking_key(files[taken(files, options)[i]]),
                taking_key(files[left]),
            ),
{
    let wanted = |i: int| is_merge_candidate(files[i], options);
    let candidates = merge_candidates(files, options);
    let before = taken_before(files);
    let sorted = stably_sorted(candidates, before);
    let considered = taken(files, options);
    lemma_filtered_positions(files.len(), wanted);
    crate::order::lemma_stably_sorted(candidates, before);
    assert forall|i: int| 0 <= i < considered.len() implies candidates.contains(
        #[trigger] considered[i],
    ) && is_merge_candidate(files[considered[i]], options) by {
        assert(sorted.contains(sorted[i]));
        let k = choose|k: int| 0 <= k < candidates.len() && candidates[k] == sorted[i];
        assert(wanted(candidates[k]));
    }
    assert forall|i: int, left: int|
        #![trigger considered[i], candidates.contains(left)]
        0 <= i < considered.len() && candidates.contains(left) && !considered.contains(
            left,
        ) implies pair_at_or_before(taking_key(files[considered[i]]), taking_key(files[left])) by {
        assert(sorted.contains(left));
        let j = choose|j: int| 0 <= j < sorted.len() && sorted[j] == left;
        if j < considered.len() {
            assert(considered[j] == left);
        }
        let leq = crate::order::tie_broken(before);
        assert(leq(sorted[i], sorted[j]));
        assert(before(sorted[i], sorted[j]));
    }
}

proof fn lemma_merge_sequence(files: Seq<DuckLakeTableFile>, options: MergeOptions)
    ensures
        merge_sequence(files, options).no_duplicates(),
        merge_sequence(files, options).len() <= options.max_merged_files,
        forall|i: int|
            0 <= i < merge_sequence(files, options).len() ==> 0 <= #[trigger] merge_sequence(
                files,
                options,
            )[i] < files.len() && is_merge_candidate(
                files[merge_sequence(files, options)[i]],
                options,
            ),
        forall|i: int, j: int|
            0 <= i < j < merge_sequence(files, options).len() ==> merge_key_order(
                merge_key_view(files[#[trigger] merge_sequence(files, options)[i]]),
                merge_key_view(files[#[trigger] merge_sequence(files, options)[j]]),
            ) <= 0,
{
    let considered = taken(files, options);
    let wanted = |i: int| considered.contains(i);
    let kept = positions(files.len()).filter(wanted);
    let before = merge_before(files);
    let sequence = merge_sequence(files, options);
    assert(kept =~= positions(files.len()).filter(|i: int| taken(files, options).contains(i)));
    lemma_taken(files, options);
    lemma_filtered_positions(files.len(), wanted);
    lemma_merge_before_preorder(files);
    crate::order::lemma_stably_sorted(kept, before);
    lemma_within(kept, considered);
    assert forall|i: int| 0 <= i < sequence.len() implies 0 <= #[trigger] sequence[i] < files.len()
        && is_merge_candidate(files[sequence[i]], options) by {
        assert(sequence.contains(sequence[i]));
        assert(kept.contains(sequence[i]));
        let k = choose|k: int| 0 <= k < kept.len() && kept[k] == sequence[i];
        assert(wanted(kept[k]));
        let j = choose|j: int| 0 <= j < considered.len() && considered[j] == sequence[i];
        assert(is_merge_candidate(files[considered[j]], options));
    }
    assert forall|i: int, j: int| 0 <= i < j < sequence.len() implies merge_key_order(
        merge_key_view(files[#[trigger] sequence[i]]),
        merge_key_view(files[#[trigger] sequence[j]]),
    ) <= 0 by {
        let leq = crate::order::tie_broken(before);
        assert(leq(sequence[i], sequence[j]));
        assert(before(sequence[i], sequence[j]));
    }
}

/// A merge never crosses a schema change or a partition, never takes a file with
/// deleted rows or one that already holds rows of several snapshots, takes every
/// file at most once, and takes no more files than it was allowed to.
pub proof fn lemma_merge_bins(files: Seq<DuckLakeTableFile>, options: MergeOptions)
    ensures
        forall|b: int|
            0 <= b < merge_bins(files, options).len() ==> is_sound_bin(
                files,
                options,
                #[trigger] merge_bins(files, options)[b],
            ),
        forall|b: int, i: int, c: int, j: int|
            #![trigger merge_bins(files, options)[b][i], merge_bins(files, options)[c][j]]
            0 <= b < merge_bins(files, options).len() && 0 <= c < merge_bins(files, options).len()
                && 0 <= i < merge_bins(files, options)[b].len() && 0 <= j < merge_bins(
                files,
                options,
            )[c].len() && merge_bins(files, options)[b][i] == merge_bins(files, options)[c][j]
                ==> b == c && i == j,
        merge_sequence(files, options).len() <= options.max_merged_files,
        forall|b: int, i: int|
            0 <= b < merge_bins(files, options).len() && 0 <= i < merge_bins(
                files,
                options,
            )[b].len() ==> merge_sequence(files, options).contains(
                #[trigger] merge_bins(files, options)[b][i],
            ),
{
    let sequence = merge_sequence(files, options);
    let target = options.target_file_size as int;
    let bins = merge_bins(files, options);
    lemma_merge_sequence(files, options);
    lemma_bins_from(files, sequence, target, 0);
    assert forall|b: int| 0 <= b < bins.len() implies is_sound_bin(
        files,
        options,
        #[trigger] bins[b],
    ) by {
        let bin = bins[b];
        let lo = bin_start(files, sequence, target, 0, b);
        assert(is_cut(files, sequence, target, 0, bin, lo));
        assert forall|i: int| 0 <= i < bin.len() implies 0 <= #[trigger] bin[i] < files.len()
            && is_merge_candidate(files[bin[i]], options) by {
            assert(bin[i] == sequence[lo + i]);
        }
        assert forall|i: int, j: int| 0 <= i < bin.len() && 0 <= j < bin.len() implies same_group(
            files[#[trigger] bin[i]],
            files[#[trigger] bin[j]],
        ) by {
            assert(same_group(files[bin[0]], files[bin[i]]));
            assert(same_group(files[bin[0]], files[bin[j]]));
        }
        assert forall|i: int, j: int| 0 <= i < j < bin.len() implies files[#[trigger] bin[i]].data_file_id
            <= files[#[trigger] bin[j]].data_file_id by {
            assert(bin[i] == sequence[lo + i]);
            assert(bin[j] == sequence[lo + j]);
            assert(merge_key_order(
                merge_key_view(files[sequence[lo + i]]),
                merge_key_view(files[sequence[lo + j]]),
            ) <= 0);
            assert(same_group(files[bin[i]], files[bin[j]]));
            crate::order::lemma_values_order(
                ordered_values(files[bin[i]].partition_values@),
                ordered_values(files[bin[j]].partition_values@),
            );
        }
    }
    assert forall|b: int, i: int, c: int, j: int|
        #![trigger bins[b][i], bins[c][j]]
        0 <= b < bins.len() && 0 <= c < bins.len() && 0 <= i < bins[b].len() && 0 <= j
            < bins[c].len() && bins[b][i] == bins[c][j] implies b == c && i == j by {
        let lo = bin_start(files, sequence, target, 0, b);
        let hi = bin_start(files, sequence, target, 0, c);
        assert(is_cut(files, sequence, target, 0, bins[b], lo));
        assert(is_cut(files, sequence, target, 0, bins[c], hi));
        assert(bins[b][i] == sequence[lo + i]);
        assert(bins[c][j] == sequence[hi + j]);
        assert(lo + i == hi + j);
        if b < c {
            assert(is_apart(bins[b], lo, bins[c], hi));
        } else if c < b {
            assert(is_apart(bins[c], hi, bins[b], lo));
        }
    }
    assert forall|b: int, i: int| 0 <= b < bins.len() && 0 <= i < bins[b].len() implies sequence.contains(
        #[trigger] bins[b][i],
    ) by {
        let lo = bin_start(files, sequence, target, 0, b);
        assert(is_cut(files, sequence, target, 0, bins[b], lo));
        assert(bins[b][i] == sequence[lo + i]);
    }
}

// ---------------------------------------------------------------------------
// Merging, on the fields of the files
// ---------------------------------------------------------------------------

/// Whether one of the bins has the file at `p`.
pub open spec fn in_a_bin(bins: Seq<Seq<int>>, p: int) -> bool {
    exists|b: int, i: int|
        #![trigger bins[b][i]]
        0 <= b < bins.len() && 0 <= i < bins[b].len() && bins[b][i] == p
}

/// Every file that is merged is there, has no deleted rows, is not itself the product of
/// a merge across snapshots, has a known origin and schema version, and a size from the
/// least that is considered up to, and not including, the size that is aimed for.
pub proof fn lemma_merged_files(
    files: Seq<DuckLakeTableFile>,
    options: MergeOptions,
    b: int,
    i: int,
)
    requires
        0 <= b < merge_bins(files, options).len(),
        0 <= i < merge_bins(files, options)[b].len(),
    ensures
        ({
            let p = merge_bins(files, options)[b][i];
            &&& 0 <= p < files.len()
            &&& files[p].delete_file_id is None
            &&& files[p].partial_max is None
            &&& files[p].begin_snapshot is Some
            &&& files[p].schema_version is Some
            &&& files[p].file.file_size_bytes >= 0 ==> options.min_file_size
                <= files[p].file.file_size_bytes < options.target_file_size
            &&& files[p].file.file_size_bytes < 0 ==> options.min_file_size
                <= files[p].file.file_size_bytes + 0x1_0000_0000_0000_0000
                < options.target_file_size
        }),
{
    lemma_merge_bins(files, options);
    assert(is_sound_bin(files, options, merge_bins(files, options)[b]));
}

/// Values that are recorded in the order of their key indexes are taken as they are.
pub proof fn lemma_ordered_values(values: Seq<(i32, Option<String>)>)
    requires
        forall|i: int, j: int|
            0 <= i < j < values.len() ==> (#[trigger] values[i]).0 < (#[trigger] values[j]).0,
    ensures
        ordered_values(values).len() == values.len(),
        forall|i: int|
            0 <= i < values.len() ==> #[trigger] ordered_values(values)[i] == opt_view(values[i].1),
{
    let before = value_index_order(values);
    let all = positions(values.len());
    let leq = crate::order::tie_broken(before);
    crate::order::lemma_stably_sorted(all, before);
    crate::order::lemma_tie_broken_total(before);
    assert forall|i: int, j: int| 0 <= i < j < all.len() implies #[trigger] leq(all[i], all[j]) by {
        assert(values[i].0 < values[j].0);
    }
    vstd::seq_lib::lemma_sorted_unique(all, stably_sorted(all, before), leq);
}

/// Key indexes decide the order of the values, and not the order in which they were
/// recorded: two values the other way round make the same partition.
pub proof fn lemma_partition_order(
    partition_id: Option<i64>,
    low: (i32, Option<String>),
    high: (i32, Option<String>),
)
    requires
        low.0 < high.0,
    ensures
        ordered_values(seq![low, high]) == ordered_values(seq![high, low]),
        ordered_values(seq![low, high]) == seq![opt_view(low.1), opt_view(high.1)],
{
    let turned = seq![high, low];
    let before = value_index_order(turned);
    let all = positions(2);
    let leq = crate::order::tie_broken(before);
    crate::order::lemma_stably_sorted(all, before);
    crate::order::lemma_tie_broken_total(before);
    let other: Seq<int> = seq![1, 0];
    assert(all =~= seq![0, 1]);
    assert(other.to_multiset() =~= all.to_multiset()) by {
        broadcast use vstd::seq_lib::group_to_multiset_ensures;

        let empty = Seq::<int>::empty();
        assert(other =~= empty.push(1).push(0));
        assert(all =~= empty.push(0).push(1));
    }
    vstd::seq_lib::lemma_sorted_unique(other, stably_sorted(all, before), leq);
    assert(ordered_values(turned) =~= seq![opt_view(low.1), opt_view(high.1)]);
    lemma_ordered_values(seq![low, high]);
    assert(ordered_values(seq![low, high]) =~= seq![opt_view(low.1), opt_view(high.1)]);
}

/// The files of one bin have one schema version, one partition specification and, key
/// by key, one set of partition values, and come in the order of their ids. All but the
/// last of them are together smaller than the size that is aimed for.
pub proof fn lemma_bin_is_one_partition(
    files: Seq<DuckLakeTableFile>,
    options: MergeOptions,
    b: int,
    i: int,
    j: int,
)
    requires
        0 <= b < merge_bins(files, options).len(),
        0 <= i < j < merge_bins(files, options)[b].len(),
    ensures
        ({
            let bin = merge_bins(files, options)[b];
            let one = files[bin[i]];
            let other = files[bin[j]];
            &&& bin[i] != bin[j]
            &&& one.schema_version == other.schema_version
            &&& one.partition_id == other.partition_id
            &&& one.data_file_id <= other.data_file_id
            &&& total_size(files, bin.drop_last()) < options.target_file_size
            &&& (forall|k: int, l: int|
                0 <= k < l < one.partition_values@.len() ==> (
                #[trigger] one.partition_values@[k]).0 < (#[trigger] one.partition_values@[l]).0)
                && (forall|k: int, l: int|
                0 <= k < l < other.partition_values@.len() ==> (
                #[trigger] other.partition_values@[k]).0 < (
                #[trigger] other.partition_values@[l]).0) ==> {
                &&& one.partition_values@.len() == other.partition_values@.len()
                &&& forall|k: int|
                    #![trigger one.partition_values@[k]]
                    0 <= k < one.partition_values@.len() ==> opt_view(one.partition_values@[k].1)
                        == opt_view(other.partition_values@[k].1)
            }
        }),
{
    lemma_merge_bins(files, options);
    let bin = merge_bins(files, options)[b];
    assert(is_sound_bin(files, options, bin));
    let one = files[bin[i]];
    let other = files[bin[j]];
    assert(same_group(one, other));
    if (forall|k: int, l: int|
        0 <= k < l < one.partition_values@.len() ==> (#[trigger] one.partition_values@[k]).0 < (
        #[trigger] one.partition_values@[l]).0) && (forall|k: int, l: int|
        0 <= k < l < other.partition_values@.len() ==> (#[trigger] other.partition_values@[k]).0 < (
        #[trigger] other.partition_values@[l]).0) {
        lemma_ordered_values(one.partition_values@);
        lemma_ordered_values(other.partition_values@);
        assert forall|k: int|
            #![trigger one.partition_values@[k]]
            0 <= k < one.partition_values@.len() implies opt_view(one.partition_values@[k].1)
            == opt_view(other.partition_values@[k].1) by {
            assert(ordered_values(one.partition_values@)[k] == ordered_values(
                other.partition_values@,
            )[k]);
        }
    }
}

/// No more files are merged in one call than it takes.
pub proof fn lemma_merge_is_capped(
    files: Seq<DuckLakeTableFile>,
    options: MergeOptions,
    chosen: Seq<int>,
)
    requires
        chosen.no_duplicates(),
        forall|k: int|
            0 <= k < chosen.len() ==> in_a_bin(merge_bins(files, options), #[trigger] chosen[k]),
    ensures
        chosen.len() <= options.max_merged_files,
{
    lemma_merge_bins(files, options);
    let sequence = merge_sequence(files, options);
    let bins = merge_bins(files, options);
    assert forall|x: int| #[trigger] chosen.to_set().contains(x) implies sequence.to_set().contains(
        x,
    ) by {
        let k = choose|k: int| 0 <= k < chosen.len() && chosen[k] == x;
        assert(in_a_bin(bins, chosen[k]));
        let (b, i) = choose|b: int, i: int|
            #![trigger bins[b][i]]
            0 <= b < bins.len() && 0 <= i < bins[b].len() && bins[b][i] == x;
        assert(sequence.contains(bins[b][i]));
    }
    chosen.unique_seq_to_set();
    sequence.lemma_cardinality_of_set();
    vstd::set_lib::lemma_len_subset(chosen.to_set(), sequence.to_set());
}

/// Whether nothing speaks against merging a file.
pub open spec fn is_small_and_clean(file: DuckLakeTableFile, options: MergeOptions) -> bool {
    &&& file.delete_file_id is None
    &&& file.partial_max is None
    &&& file.begin_snapshot is Some
    &&& file.schema_version is Some
    &&& 0 <= file.file.file_size_bytes
    &&& options.min_file_size <= file.file.file_size_bytes < options.target_file_size
}

/// Whether two files have one schema version and, as recorded, one partition.
pub open spec fn are_of_one_partition(a: DuckLakeTableFile, b: DuckLakeTableFile) -> bool {
    &&& a.schema_version == b.schema_version
    &&& a.partition_id == b.partition_id
    &&& a.partition_values@ == b.partition_values@
}

/// Whether one file is taken before another: by schema version, then by id.
pub open spec fn is_older(a: DuckLakeTableFile, b: DuckLakeTableFile) -> bool {
    a.schema_version->0 < b.schema_version->0 || (a.schema_version->0 == b.schema_version->0
        && a.data_file_id < b.data_file_id)
}

/// Whether a call reaches a file: the cap lets it take all files, or it merges one that
/// is taken after it.
pub open spec fn is_reached(
    files: Seq<DuckLakeTableFile>,
    options: MergeOptions,
    p: int,
) -> bool {
    files.len() <= options.max_merged_files || exists|q: int|
        0 <= q < files.len() && #[trigger] in_a_bin(merge_bins(files, options), q) && is_older(
            files[p],
            files[q],
        )
}

proof fn lemma_reached_is_taken(files: Seq<DuckLakeTableFile>, options: MergeOptions, p: int)
    requires
        0 <= p < files.len(),
        is_small_and_clean(files[p], options),
        is_reached(files, options, p),
    ensures
        merge_sequence(files, options).contains(p),
{
    let wanted = |i: int| is_merge_candidate(files[i], options);
    let candidates = merge_candidates(files, options);
    let considered = taken(files, options);
    let all = positions(files.len());
    lemma_taken(files, options);
    lemma_merge_bins(files, options);
    assert(all[p] == p);
    all.lemma_filter_contains(wanted, p);
    assert(candidates.contains(p));
    if files.len() <= options.max_merged_files {
        lemma_filtered_positions(files.len(), wanted);
        assert(candidates.len() <= files.len()) by {
            reveal(Seq::filter);
            all.lemma_filter_len(wanted);
        }
        let sorted = stably_sorted(candidates, taken_before(files));
        crate::order::lemma_stably_sorted(candidates, taken_before(files));
        assert(considered == sorted);
        assert(considered.contains(p));
    } else {
        let bins = merge_bins(files, options);
        let q = choose|q: int|
            0 <= q < files.len() && #[trigger] in_a_bin(bins, q) && is_older(files[p], files[q]);
        let (b, i) = choose|b: int, i: int|
            #![trigger bins[b][i]]
            0 <= b < bins.len() && 0 <= i < bins[b].len() && bins[b][i] == q;
        assert(merge_sequence(files, options).contains(bins[b][i]));
        assert(is_sound_bin(files, options, bins[b]));
        lemma_sequence_is_taken(files, options, q);
        let n = choose|n: int| 0 <= n < considered.len() && considered[n] == q;
        if !considered.contains(p) {
            assert(pair_at_or_before(taking_key(files[considered[n]]), taking_key(files[p])));
        }
    }
    lemma_sequence_is_taken(files, options, p);
}

/// What is put in merge order is what was taken.
proof fn lemma_sequence_is_taken(files: Seq<DuckLakeTableFile>, options: MergeOptions, p: int)
    requires
        0 <= p < files.len(),
    ensures
        merge_sequence(files, options).contains(p) == taken(files, options).contains(p),
{
    let considered = taken(files, options);
    let wanted = |i: int| taken(files, options).contains(i);
    let all = positions(files.len());
    let kept = all.filter(wanted);
    lemma_filtered_positions(files.len(), wanted);
    lemma_merge_before_preorder(files);
    crate::order::lemma_stably_sorted(kept, merge_before(files));
    assert(all[p] == p);
    if wanted(p) {
        all.lemma_filter_contains(wanted, p);
    }
    if kept.contains(p) {
        let k = choose|k: int| 0 <= k < kept.len() && kept[k] == p;
        assert(wanted(kept[k]));
    }
}

/// A key between two of one group is of that group.
proof fn lemma_key_between(a: MergeKeyView, m: MergeKeyView, b: MergeKeyView)
    requires
        merge_key_order(a, m) <= 0,
        merge_key_order(m, b) <= 0,
        a.0 == b.0,
        a.1 == b.1,
        a.2 == b.2,
    ensures
        m.0 == a.0,
        m.1 == a.1,
        m.2 == a.2,
{
    crate::order::lemma_values_order(a.2, m.2);
    crate::order::lemma_values_order(m.2, b.2);
}

/// Files that stand in merge order between two of one group are of that group.
proof fn lemma_group_is_one_run(
    files: Seq<DuckLakeTableFile>,
    options: MergeOptions,
    x: int,
    m: int,
    y: int,
)
    requires
        0 <= x <= m <= y < merge_sequence(files, options).len(),
        same_group(
            files[merge_sequence(files, options)[x]],
            files[merge_sequence(files, options)[y]],
        ),
    ensures
        same_group(
            files[merge_sequence(files, options)[x]],
            files[merge_sequence(files, options)[m]],
        ),
{
    lemma_merge_sequence(files, options);
    let sequence = merge_sequence(files, options);
    if x < m && m < y {
        lemma_key_between(
            merge_key_view(files[sequence[x]]),
            merge_key_view(files[sequence[m]]),
            merge_key_view(files[sequence[y]]),
        );
        assert(is_merge_candidate(files[sequence[m]], options));
        assert(is_merge_candidate(files[sequence[x]], options));
    }
}

/// A file in front of one of its group is in a bin.
proof fn lemma_not_left_alone(
    files: Seq<DuckLakeTableFile>,
    sequence: Seq<int>,
    target: int,
    start: int,
    at: int,
)
    requires
        0 <= start <= at,
        at + 1 < sequence.len(),
        same_group(files[sequence[at]], files[sequence[at + 1]]),
        unsigned_size(files[sequence[at]].file.file_size_bytes) < target,
    ensures
        in_a_bin(bins_from(files, sequence, target, start), sequence[at]),
    decreases sequence.len() - start,
{
    let end = bin_end(files, sequence, target, start, start, 0);
    let bins = bins_from(files, sequence, target, start);
    lemma_bin_end(files, sequence, target, start, start, 0);
    let first = unsigned_size(files[sequence[start]].file.file_size_bytes);
    lemma_bin_end(files, sequence, target, start, start + 1, first);
    assert(start < end);
    let rest = bins_from(files, sequence, target, end);
    if at < end {
        if start == at {
            let second = unsigned_size(files[sequence[start + 1]].file.file_size_bytes);
            assert(end == bin_end(files, sequence, target, start, start + 1, first));
            lemma_bin_end(files, sequence, target, start, start + 2, first + second);
            assert(end >= start + 2);
        }
        assert(end - start >= 2);
        assert(bins =~= seq![sequence.subrange(start, end)] + rest);
        assert(bins[0][at - start] == sequence[at]);
    } else {
        lemma_not_left_alone(files, sequence, target, end, at);
        let (b, i) = choose|b: int, i: int|
            #![trigger rest[b][i]]
            0 <= b < rest.len() && 0 <= i < rest[b].len() && rest[b][i] == sequence[at];
        if end - start >= 2 {
            assert(bins[b + 1][i] == sequence[at]);
        } else {
            assert(bins[b][i] == sequence[at]);
        }
    }
}

/// Of two files that a call reaches, both small and clean and of one partition, at least
/// one is merged: no partition is left with two of them.
pub proof fn lemma_small_files_are_merged(
    files: Seq<DuckLakeTableFile>,
    options: MergeOptions,
    p: int,
    q: int,
)
    requires
        0 <= p < files.len(),
        0 <= q < files.len(),
        p != q,
        is_small_and_clean(files[p], options),
        is_small_and_clean(files[q], options),
        are_of_one_partition(files[p], files[q]),
        is_reached(files, options, p),
        is_reached(files, options, q),
    ensures
        in_a_bin(merge_bins(files, options), p) || in_a_bin(merge_bins(files, options), q),
{
    lemma_reached_is_taken(files, options, p);
    lemma_reached_is_taken(files, options, q);
    lemma_merge_sequence(files, options);
    let sequence = merge_sequence(files, options);
    let target = options.target_file_size as int;
    let x = choose|x: int| 0 <= x < sequence.len() && sequence[x] == p;
    let y = choose|y: int| 0 <= y < sequence.len() && sequence[y] == q;
    if x < y {
        lemma_group_is_one_run(files, options, x, x + 1, y);
        lemma_not_left_alone(files, sequence, target, 0, x);
    } else {
        lemma_group_is_one_run(files, options, y, y + 1, x);
        lemma_not_left_alone(files, sequence, target, 0, y);
    }
}

/// A bin that has ended has reached the target, or nothing of its group follows it.
proof fn lemma_bin_end_reason(
    files: Seq<DuckLakeTableFile>,
    sequence: Seq<int>,
    target: int,
    start: int,
    at: int,
    running: int,
)
    requires
        0 <= start <= at <= sequence.len(),
    ensures
        ({
            let end = bin_end(files, sequence, target, start, at, running);
            ||| end >= sequence.len()
            ||| !same_group(files[sequence[start]], files[sequence[end]])
            ||| running + total_size(files, sequence.subrange(at, end)) >= target
        }),
    decreases sequence.len() - at,
{
    let end = bin_end(files, sequence, target, start, at, running);
    lemma_bin_end(files, sequence, target, start, at, running);
    if at < sequence.len() && same_group(files[sequence[start]], files[sequence[at]]) {
        let first = unsigned_size(files[sequence[at]].file.file_size_bytes);
        let reached = running + first;
        if reached >= target {
            let bin = sequence.subrange(at, end);
            assert(bin.skip(1) =~= Seq::empty());
            assert(total_size(files, bin.skip(1)) == 0);
            assert(total_size(files, bin) == first);
        } else {
            lemma_bin_end(files, sequence, target, start, at + 1, reached);
            lemma_bin_end_reason(files, sequence, target, start, at + 1, reached);
            let bin = sequence.subrange(at, end);
            assert(end == bin_end(files, sequence, target, start, at + 1, reached));
            assert(bin.skip(1) =~= sequence.subrange(at + 1, end));
            assert(total_size(files, bin) == first + total_size(files, bin.skip(1)));
        }
    }
}

/// Where a bin is cut out of the sequence, it ends as packing demands.
proof fn lemma_bin_is_packed(
    files: Seq<DuckLakeTableFile>,
    sequence: Seq<int>,
    target: int,
    start: int,
    b: int,
)
    requires
        0 <= start <= sequence.len(),
        0 <= b < bins_from(files, sequence, target, start).len(),
    ensures
        ({
            let bin = bins_from(files, sequence, target, start)[b];
            let lo = bin_start(files, sequence, target, start, b);
            &&& is_cut(files, sequence, target, start, bin, lo)
            &&& {
                ||| lo + bin.len() >= sequence.len()
                ||| !same_group(files[sequence[lo]], files[sequence[lo + bin.len()]])
                ||| total_size(files, bin) >= target
            }
        }),
    decreases sequence.len() - start,
{
    lemma_bins_from(files, sequence, target, start);
    let bins = bins_from(files, sequence, target, start);
    let end = bin_end(files, sequence, target, start, start, 0);
    lemma_bin_end(files, sequence, target, start, start, 0);
    assert(is_cut(
        files,
        sequence,
        target,
        start,
        bins[b],
        bin_start(files, sequence, target, start, b),
    ));
    let rest = bins_from(files, sequence, target, end);
    if end - start >= 2 {
        assert(bins =~= seq![sequence.subrange(start, end)] + rest);
        if b == 0 {
            lemma_bin_end_reason(files, sequence, target, start, start, 0);
        } else {
            assert(bins[b] == rest[b - 1]);
            lemma_bin_is_packed(files, sequence, target, end, b - 1);
        }
    } else {
        lemma_bin_is_packed(files, sequence, target, end, b);
    }
}

/// A bin is filled before the next one is begun: where its files do not reach the size
/// that is aimed for, every other file of its partition that the call reaches comes
/// before all of them.
pub proof fn lemma_bins_are_filled(
    files: Seq<DuckLakeTableFile>,
    options: MergeOptions,
    b: int,
    i: int,
    p: int,
)
    requires
        0 <= b < merge_bins(files, options).len(),
        0 <= i < merge_bins(files, options)[b].len(),
        total_size(files, merge_bins(files, options)[b]) < options.target_file_size,
        0 <= p < files.len(),
        is_small_and_clean(files[p], options),
        is_reached(files, options, p),
        are_of_one_partition(files[p], files[merge_bins(files, options)[b][i]]),
        !merge_bins(files, options)[b].contains(p),
    ensures
        files[p].data_file_id <= files[merge_bins(files, options)[b][i]].data_file_id,
{
    let sequence = merge_sequence(files, options);
    let target = options.target_file_size as int;
    let bin = merge_bins(files, options)[b];
    let lo = bin_start(files, sequence, target, 0, b);
    let hi = lo + bin.len();
    lemma_reached_is_taken(files, options, p);
    lemma_merge_sequence(files, options);
    lemma_bin_is_packed(files, sequence, target, 0, b);
    let x = choose|x: int| 0 <= x < sequence.len() && sequence[x] == p;
    assert(bin[i] == sequence[lo + i]);
    if lo <= x < hi {
        assert(bin[x - lo] == p);
    } else if x >= hi {
        assert(same_group(files[sequence[lo + i]], files[sequence[x]]));
        lemma_group_is_one_run(files, options, lo + i, hi, x);
        assert(same_group(files[bin[0]], files[bin[i]]));
        assert(bin[0] == sequence[lo]);
        assert(same_group(files[sequence[lo]], files[sequence[hi]]));
    } else {
        assert(merge_key_order(
            merge_key_view(files[sequence[x]]),
            merge_key_view(files[sequence[lo + i]]),
        ) <= 0);
        crate::order::lemma_values_order(
            ordered_values(files[p].partition_values@),
            ordered_values(files[bin[i]].partition_values@),
        );
    }
}

/// How many bytes some files hold is the sum over them.
pub proof fn lemma_total_size(files: Seq<DuckLakeTableFile>, bin: Seq<int>, p: int)
    requires
        files[p].file.file_size_bytes >= 0,
    ensures
        total_size(files, seq![p] + bin) == files[p].file.file_size_bytes + total_size(files, bin),
        total_size(files, Seq::empty()) == 0,
{
    assert((seq![p] + bin).skip(1) =~= bin);
}

/// Files are merged in the order of their schema versions, then of their partitions, those
/// without one first, then of the values of these, then of their ids. Each file that is
/// taken is there once.
pub proof fn lemma_merge_order(
    files: Seq<DuckLakeTableFile>,
    options: MergeOptions,
    i: int,
    j: int,
)
    requires
        0 <= i < j < merge_sequence(files, options).len(),
    ensures
        ({
            let a = files[merge_sequence(files, options)[i]];
            let b = files[merge_sequence(files, options)[j]];
            let (va, vb) = (
                ordered_values(a.partition_values@),
                ordered_values(b.partition_values@),
            );
            &&& merge_sequence(files, options)[i] != merge_sequence(files, options)[j]
            &&& a.schema_version is Some && b.schema_version is Some ==> a.schema_version->0
                <= b.schema_version->0
            &&& a.schema_version == b.schema_version && b.partition_id is None ==> a.partition_id
                is None
            &&& a.schema_version == b.schema_version && a.partition_id is Some && b.partition_id
                is Some ==> a.partition_id->0 <= b.partition_id->0
            &&& a.schema_version == b.schema_version && a.partition_id == b.partition_id
                ==> crate::order::values_order(va, vb) <= 0
            &&& a.schema_version == b.schema_version && a.partition_id == b.partition_id && va
                == vb ==> a.data_file_id <= b.data_file_id
        }),
{
    let wanted = |p: int| taken(files, options).contains(p);
    let items = positions(files.len()).filter(wanted);
    let before = merge_before(files);
    let chosen = crate::order::lemma_filter_selects(positions(files.len()), wanted);
    assert(items =~= chosen);
    lemma_merge_before_preorder(files);
    crate::order::lemma_stably_sorted(items, before);
    let sequence = merge_sequence(files, options);
    let leq = crate::order::tie_broken(before);
    assert(leq(sequence[i], sequence[j]));
    assert(before(sequence[i], sequence[j]));
    let (a, b) = (files[sequence[i]], files[sequence[j]]);
    crate::order::lemma_values_order(
        ordered_values(a.partition_values@),
        ordered_values(b.partition_values@),
    );
}

/// A size that the catalog records is read as an unsigned number of 64 bits.
pub proof fn lemma_unsigned_sizes(size: i64)
    ensures
        0 <= unsigned_size(size) <= 0xffff_ffff_ffff_ffff,
        (unsigned_size(size) - size) % 0x1_0000_0000_0000_0000 == 0,
{
}

} // verus!
