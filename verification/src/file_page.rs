//! Reading one page of a table's files: the listing, then the statistics and the
//! partition values of the files listed.
//!
//! The page is a small state machine. The caller runs the query that a state
//! asks for and hands the reply back; the state says what follows. A filter on
//! statistics is only ever an aid: when the narrowed listing cannot be run, the
//! whole listing is.

use std::collections::HashMap;
use vstd::prelude::*;
use crate::error::{invalid_config, DuckLakeError};
use crate::text::{i64_text, int_text, join, joined, views};
use crate::metadata::{DuckLakeFileColumnStatistics, DuckLakeFileMetadata, DuckLakeTableFile};

verus! {

broadcast use vstd::std_specs::hash::group_hash_axioms;

// ---------------------------------------------------------------------------
// Handing rows to the files they belong to
// ---------------------------------------------------------------------------

/// The values of the rows that name `id`, in order.
pub open spec fn rows_of<T>(rows: Seq<(i64, T)>, id: i64) -> Seq<T>
    decreases rows.len(),
{
    if rows.len() == 0 {
        Seq::empty()
    } else if rows.last().0 == id {
        rows_of(rows.drop_last(), id).push(rows.last().1)
    } else {
        rows_of(rows.drop_last(), id)
    }
}

/// Sorts rows by the id they name.
fn group_by_id<T>(rows: Vec<(i64, T)>) -> (groups: HashMap<i64, Vec<T>>)
    ensures
        forall|id: i64|
            #![trigger groups@.contains_key(id)]
            #![trigger rows_of(rows@, id)]
            groups@.contains_key(id) == (rows_of(rows@, id).len() > 0) && (groups@.contains_key(id)
                ==> groups@[id]@ == rows_of(rows@, id)),
{
    let mut groups: HashMap<i64, Vec<T>> = HashMap::new();
    let ghost all = rows@;
    assert(all.take(0) =~= Seq::empty());
    for row in it: rows
        invariant
            it.seq() == all,
            forall|id: i64|
                #![trigger groups@.contains_key(id)]
                #![trigger rows_of(all.take(it.index() as int), id)]
                groups@.contains_key(id) == (rows_of(all.take(it.index() as int), id).len() > 0)
                    && (groups@.contains_key(id) ==> groups@[id]@ == rows_of(
                    all.take(it.index() as int),
                    id,
                )),
    {
        let ghost n = it.index() as int;
        let ghost before = groups@;
        let (id, value) = row;
        proof {
            assert(all.take(n + 1).drop_last() =~= all.take(n));
            assert(all.take(n + 1).last() == row);
        }
        let mut group: Vec<T> = match groups.remove(&id) {
            Some(group) => group,
            None => Vec::new(),
        };
        proof {
            assert(before.contains_key(id) == (rows_of(all.take(n), id).len() > 0));
            assert(group@ =~= rows_of(all.take(n), id));
        }
        group.push(value);
        groups.insert(id, group);
        proof {
            assert forall|other: i64|
                #![trigger groups@.contains_key(other)]
                #![trigger rows_of(all.take(n + 1), other)]
                groups@.contains_key(other) == (rows_of(all.take(n + 1), other).len() > 0) && (
                groups@.contains_key(other) ==> groups@[other]@ == rows_of(
                    all.take(n + 1),
                    other,
                )) by {
                assert(before.contains_key(other) == (rows_of(all.take(n), other).len() > 0));
            }
        }
    }
    assert(all.take(all.len() as int) =~= all);
    groups
}

/// Statistics, each with the id of the file it belongs to.
pub open spec fn keyed_statistics(statistics: Seq<DuckLakeFileColumnStatistics>) -> Seq<
    (i64, DuckLakeFileColumnStatistics),
> {
    statistics.map_values(|s: DuckLakeFileColumnStatistics| (s.data_file_id, s))
}

/// Whether `a` and `b` record the same of a file, up to its partition values.
pub open spec fn agree_up_to_values(a: DuckLakeTableFile, b: DuckLakeTableFile) -> bool {
    &&& a.data_file_id == b.data_file_id
    &&& a.file == b.file
    &&& a.delete_file_id == b.delete_file_id
    &&& a.delete_file == b.delete_file
    &&& a.row_id_start == b.row_id_start
    &&& a.snapshot_id == b.snapshot_id
    &&& a.begin_snapshot == b.begin_snapshot
    &&& a.schema_version == b.schema_version
    &&& a.partial_max == b.partial_max
    &&& a.max_row_count == b.max_row_count
    &&& a.delete_count == b.delete_count
    &&& a.partition_id == b.partition_id
}

/// Whether no file in front of position `i` has the id of the file there.
pub open spec fn is_first_of_id(files: Seq<DuckLakeTableFile>, i: int) -> bool {
    forall|j: int| 0 <= j < i ==> (#[trigger] files[j]).data_file_id != files[i].data_file_id
}

/// Whether `out` is the file at position `i` with the values that belong to it:
/// the rows that name its id, handed out once, to the first file of that id.
pub open spec fn has_its_values(
    out: DuckLakeTableFile,
    files: Seq<DuckLakeTableFile>,
    i: int,
    values: Seq<(i64, (i32, Option<String>))>,
) -> bool {
    &&& agree_up_to_values(out, files[i])
    &&& out.partition_values@ == if is_first_of_id(files, i) && rows_of(
        values,
        files[i].data_file_id,
    ).len() > 0 {
        rows_of(values, files[i].data_file_id)
    } else {
        files[i].partition_values@
    }
}

/// Hands partition values to the files they belong to.
pub fn attach_partition_values(
    files: Vec<DuckLakeTableFile>,
    values: Vec<(i64, (i32, Option<String>))>,
) -> (out: Vec<DuckLakeTableFile>)
    ensures
        out@.len() == files@.len(),
        forall|i: int|
            0 <= i < out@.len() ==> has_its_values(#[trigger] out@[i], files@, i, values@),
{
    let ghost all = files@;
    let mut groups = group_by_id(values);
    let mut out: Vec<DuckLakeTableFile> = Vec::new();
    for next in it: files
        invariant
            it.seq() == all,
            out@.len() == it.index(),
            forall|i: int|
                0 <= i < out@.len() ==> has_its_values(#[trigger] out@[i], all, i, values@),
            forall|id: i64|
                #![trigger groups@.contains_key(id)]
                groups@.contains_key(id) == (rows_of(values@, id).len() > 0 && forall|j: int|
                    0 <= j < it.index() ==> (#[trigger] all[j]).data_file_id != id),
            forall|id: i64|
                groups@.contains_key(id) ==> (#[trigger] groups@[id])@ == rows_of(values@, id),
    {
        let ghost n = it.index() as int;
        let ghost before = groups@;
        let mut file = next;
        let id: i64 = file.data_file_id;
        assert(before.contains_key(id) == (rows_of(values@, id).len() > 0 && is_first_of_id(
            all,
            n,
        )));
        match groups.remove(&id) {
            Some(group) => {
                file.partition_values = group;
            },
            None => {},
        }
        assert(has_its_values(file, all, n, values@));
        out.push(file);
        proof {
            assert forall|other: i64| #![trigger groups@.contains_key(other)]
                groups@.contains_key(other) == (rows_of(values@, other).len() > 0 && forall|j: int|
                    0 <= j < n + 1 ==> (#[trigger] all[j]).data_file_id != other) by {
                assert(before.contains_key(other) == (rows_of(values@, other).len() > 0
                    && forall|j: int|
                    0 <= j < n ==> (#[trigger] all[j]).data_file_id != other));
                if other == id {
                    assert(all[n].data_file_id == id);
                }
            }
        }
    }
    out
}

/// Whether `out` is a listed file with the statistics that belong to it, handed
/// out once, to the first file of that id.
pub open spec fn has_its_statistics(
    out: DuckLakeFileMetadata,
    files: Seq<DuckLakeTableFile>,
    i: int,
    statistics: Seq<DuckLakeFileColumnStatistics>,
) -> bool {
    &&& out.file == files[i]
    &&& out.column_statistics@ == if is_first_of_id(files, i) {
        rows_of(keyed_statistics(statistics), files[i].data_file_id)
    } else {
        Seq::empty()
    }
}

/// Hands statistics to the files they belong to.
pub fn attach_statistics(
    files: Vec<DuckLakeTableFile>,
    statistics: Vec<DuckLakeFileColumnStatistics>,
) -> (out: Vec<DuckLakeFileMetadata>)
    ensures
        out@.len() == files@.len(),
        forall|i: int|
            0 <= i < out@.len() ==> has_its_statistics(#[trigger] out@[i], files@, i, statistics@),
{
    let ghost all = files@;
    let ghost keyed = keyed_statistics(statistics@);
    let mut rows: Vec<(i64, DuckLakeFileColumnStatistics)> = Vec::new();
    let ghost given = statistics@;
    for statistic in it: statistics
        invariant
            it.seq() == given,
            rows@ =~= keyed_statistics(given).take(it.index() as int),
    {
        rows.push((statistic.data_file_id, statistic));
    }
    assert(rows@ =~= keyed);
    let mut groups = group_by_id(rows);
    let mut out: Vec<DuckLakeFileMetadata> = Vec::new();
    for file in it: files
        invariant
            it.seq() == all,
            out@.len() == it.index(),
            keyed == keyed_statistics(statistics@),
            forall|i: int|
                0 <= i < out@.len() ==> has_its_statistics(#[trigger] out@[i], all, i, statistics@),
            forall|id: i64|
                #![trigger groups@.contains_key(id)]
                groups@.contains_key(id) == (rows_of(keyed, id).len() > 0 && forall|j: int|
                    0 <= j < it.index() ==> (#[trigger] all[j]).data_file_id != id),
            forall|id: i64|
                groups@.contains_key(id) ==> (#[trigger] groups@[id])@ == rows_of(keyed, id),
    {
        let ghost n = it.index() as int;
        let ghost before = groups@;
        let id: i64 = file.data_file_id;
        assert(before.contains_key(id) == (rows_of(keyed, id).len() > 0 && is_first_of_id(all, n)));
        let column_statistics = match groups.remove(&id) {
            Some(group) => group,
            None => Vec::new(),
        };
        assert(column_statistics@ =~= if is_first_of_id(all, n) {
            rows_of(keyed, id)
        } else {
            Seq::empty()
        });
        out.push(DuckLakeFileMetadata { file, column_statistics });
        proof {
            assert forall|other: i64| #![trigger groups@.contains_key(other)]
                groups@.contains_key(other) == (rows_of(keyed, other).len() > 0 && forall|j: int|
                    0 <= j < n + 1 ==> (#[trigger] all[j]).data_file_id != other) by {
                assert(before.contains_key(other) == (rows_of(keyed, other).len() > 0
                    && forall|j: int|
                    0 <= j < n ==> (#[trigger] all[j]).data_file_id != other));
                if other == id {
                    assert(all[n].data_file_id == id);
                }
            }
        }
    }
    out
}

/// The ids of `files`, separated by commas.
pub open spec fn id_list_text(files: Seq<DuckLakeTableFile>) -> Seq<char> {
    joined(files.map_values(|file: DuckLakeTableFile| int_text(file.data_file_id as int)), ", "@)
}

/// The ids of `files`, separated by commas.
pub fn id_list(files: &Vec<DuckLakeTableFile>) -> (out: String)
    ensures
        out@ == id_list_text(files@),
{
    let mut ids: Vec<String> = Vec::new();
    let mut i: usize = 0;
    while i < files.len()
        invariant
            i <= files@.len(),
            ids@.len() == i,
            forall|k: int|
                0 <= k < i ==> (#[trigger] ids@[k])@ == int_text(files@[k].data_file_id as int),
        decreases files@.len() - i,
    {
        ids.push(i64_text(files[i].data_file_id));
        i = i + 1;
    }
    assert(views(ids@) =~= files@.map_values(
        |file: DuckLakeTableFile| int_text(file.data_file_id as int),
    ));
    join(&ids, ", ")
}

// ---------------------------------------------------------------------------
// All files of a table
// ---------------------------------------------------------------------------

/// Whether every file has an id from `range.0` to `range.1`, and no smaller range will
/// do.
pub open spec fn is_id_range(files: Seq<DuckLakeTableFile>, range: (i64, i64)) -> bool {
    &&& forall|i: int|
        0 <= i < files.len() ==> range.0 <= (#[trigger] files[i]).data_file_id <= range.1
    &&& exists|i: int| 0 <= i < files.len() && (#[trigger] files[i]).data_file_id == range.0
    &&& exists|i: int| 0 <= i < files.len() && (#[trigger] files[i]).data_file_id == range.1
}

/// The range of ids that the partition values of `files` are read for.
pub fn partition_value_range(files: &Vec<DuckLakeTableFile>) -> (range: Option<(i64, i64)>)
    ensures
        match range {
            Some(range) => is_id_range(files@, range),
            None => files@.len() == 0,
        },
{
    if files.len() == 0 {
        return None;
    }
    let mut low: i64 = files[0].data_file_id;
    let mut high: i64 = files[0].data_file_id;
    let mut i: usize = 1;
    while i < files.len()
        invariant
            1 <= i <= files@.len(),
            forall|k: int|
                0 <= k < i ==> low <= (#[trigger] files@[k]).data_file_id <= high,
            exists|k: int| 0 <= k < i && (#[trigger] files@[k]).data_file_id == low,
            exists|k: int| 0 <= k < i && (#[trigger] files@[k]).data_file_id == high,
        decreases files@.len() - i,
    {
        let id: i64 = files[i].data_file_id;
        if id < low {
            low = id;
        }
        if id > high {
            high = id;
        }
        i = i + 1;
    }
    Some((low, high))
}

/// Puts the partition values of all files of a table with them. A catalog without a
/// table for them has none.
pub fn finish_select(
    files: Vec<DuckLakeTableFile>,
    reply: Reply<(i64, (i32, Option<String>))>,
) -> (result: Result<Vec<DuckLakeTableFile>, String>)
    ensures
        match reply {
            Reply::Rows(values) => {
                &&& result matches Ok(out)
                &&& out@.len() == files@.len()
                &&& forall|i: int|
                    0 <= i < out@.len() ==> has_its_values(#[trigger] out@[i], files@, i, values@)
            },
            Reply::Failure { message, missing_table } => if missing_table {
                result == Ok::<Vec<DuckLakeTableFile>, String>(files)
            } else {
                result == Err::<Vec<DuckLakeTableFile>, String>(message)
            },
        },
{
    match reply {
        Reply::Rows(values) => Ok(attach_partition_values(files, values)),
        Reply::Failure { message, missing_table } => {
            if missing_table {
                Ok(files)
            } else {
                Err(message)
            }
        },
    }
}

// ---------------------------------------------------------------------------
// The page as a state machine
// ---------------------------------------------------------------------------

/// How the catalog replied to a query.
pub enum Reply<T> {
    Rows(Vec<T>),
    /// The query failed; the flag says whether for want of a table it reads.
    Failure { message: String, missing_table: bool },
}

/// Where the reading of a page stands.
pub enum FilePage {
    /// The listing is to be run: narrowed by the filter of the request, or whole.
    Listing { filtered: bool, narrowed: bool, after: i64, limit: i64 },
    /// The statistics of the listed files are to be read: of those with ids
    /// above `after` and up to `last`, and of the listed ones alone where the
    /// request has a filter.
    Statistics { filtered: bool, after: i64, last: i64, files: Vec<DuckLakeTableFile> },
    /// The partition values of the listed files are to be read, by the same ids.
    PartitionValues {
        filtered: bool,
        after: i64,
        last: i64,
        files: Vec<DuckLakeTableFile>,
        statistics: Vec<DuckLakeFileColumnStatistics>,
    },
    /// The page has been read.
    Done { page: Vec<DuckLakeFileMetadata> },
    /// The page cannot be read.
    Failed { message: String },
}

/// The id behind which a page starts; without one, every file comes behind it.
pub open spec fn page_start(after_data_file_id: Option<i64>) -> i64 {
    match after_data_file_id {
        Some(id) => id,
        None => i64::MIN,
    }
}

/// Whether `page` has been read and holds no file.
pub open spec fn is_empty_page(page: FilePage) -> bool {
    page matches FilePage::Done { page } && page@.len() == 0
}

/// Starts reading at most `limit` files behind `after_data_file_id`.
pub fn begin_page(after_data_file_id: Option<i64>, limit: usize, filtered: bool) -> (result: Result<
    FilePage,
    DuckLakeError,
>)
    ensures
        limit == 0 ==> (result matches Ok(page) && is_empty_page(page)),
        limit > i64::MAX ==> invalid_config(result, "file metadata page limit exceeds i64"@),
        0 < limit <= i64::MAX ==> result == Ok::<FilePage, DuckLakeError>(
            FilePage::Listing {
                filtered,
                narrowed: filtered,
                after: page_start(after_data_file_id),
                limit: limit as i64,
            },
        ),
{
    if limit == 0 {
        return Ok(FilePage::Done { page: Vec::new() });
    }
    if limit as u128 > i64::MAX as u128 {
        return Err(
            DuckLakeError::InvalidConfig("file metadata page limit exceeds i64".to_string()),
        );
    }
    let after: i64 = match after_data_file_id {
        Some(id) => id,
        None => i64::MIN,
    };
    Ok(FilePage::Listing { filtered, narrowed: filtered, after, limit: limit as i64 })
}

impl FilePage {
    /// Takes the reply to the listing. A narrowed listing that fails, for
    /// whatever reason, is run again whole; a whole listing that fails ends the
    /// page. A listing without files is an empty page.
    pub fn listed(self, reply: Reply<DuckLakeTableFile>) -> (next: Self)
        ensures
            self matches FilePage::Listing { filtered, narrowed, after, limit } ==> match reply {
                Reply::Rows(files) => if files@.len() == 0 {
                    is_empty_page(next)
                } else {
                    next == (FilePage::Statistics {
                        filtered,
                        after,
                        last: files@.last().data_file_id,
                        files,
                    })
                },
                Reply::Failure { message, missing_table } => if narrowed {
                    next == (FilePage::Listing { filtered, narrowed: false, after, limit })
                } else {
                    next == (FilePage::Failed { message })
                },
            },
            self !is Listing ==> next == self,
    {
        match self {
            FilePage::Listing { filtered, narrowed, after, limit } => match reply {
                Reply::Rows(files) => {
                    if files.len() == 0 {
                        return FilePage::Done { page: Vec::new() };
                    }
                    let last: i64 = files[files.len() - 1].data_file_id;
                    FilePage::Statistics { filtered, after, last, files }
                },
                Reply::Failure { message, missing_table } => {
                    if narrowed {
                        FilePage::Listing { filtered, narrowed: false, after, limit }
                    } else {
                        FilePage::Failed { message }
                    }
                },
            },
            other => other,
        }
    }

    /// Takes the reply to the query for statistics. A catalog without the table
    /// has none.
    pub fn with_statistics(self, reply: Reply<DuckLakeFileColumnStatistics>) -> (next: Self)
        ensures
            self matches FilePage::Statistics { filtered, after, last, files } ==> match reply {
                Reply::Rows(statistics) => next == (FilePage::PartitionValues {
                    filtered,
                    after,
                    last,
                    files,
                    statistics,
                }),
                Reply::Failure { message, missing_table } => if missing_table {
                    next matches FilePage::PartitionValues {
                        filtered: f,
                        after: a,
                        last: l,
                        files: listed,
                        statistics,
                    } && f == filtered && a == after && l == last && listed == files
                        && statistics@.len() == 0
                } else {
                    next == (FilePage::Failed { message })
                },
            },
            self !is Statistics ==> next == self,
    {
        match self {
            FilePage::Statistics { filtered, after, last, files } => match reply {
                Reply::Rows(statistics) => FilePage::PartitionValues {
                    filtered,
                    after,
                    last,
                    files,
                    statistics,
                },
                Reply::Failure { message, missing_table } => {
                    if missing_table {
                        FilePage::PartitionValues {
                            filtered,
                            after,
                            last,
                            files,
                            statistics: Vec::new(),
                        }
                    } else {
                        FilePage::Failed { message }
                    }
                },
            },
            other => other,
        }
    }

    /// Takes the reply to the query for partition values, with which the page is
    /// complete. A catalog without the table has none.
    pub fn with_partition_values(self, reply: Reply<(i64, (i32, Option<String>))>) -> (next: Self)
        ensures
            self matches FilePage::PartitionValues {
                filtered,
                after,
                last,
                files,
                statistics,
            } ==> match reply {
                Reply::Rows(values) => next matches FilePage::Done { page } && is_page(
                    page@,
                    files@,
                    statistics@,
                    values@,
                ),
                Reply::Failure { message, missing_table } => if missing_table {
                    next matches FilePage::Done { page } && is_page(
                        page@,
                        files@,
                        statistics@,
                        Seq::empty(),
                    )
                } else {
                    next == (FilePage::Failed { message })
                },
            },
            self !is PartitionValues ==> next == self,
    {
        match self {
            FilePage::PartitionValues { filtered, after, last, files, statistics } => match reply {
                Reply::Rows(values) => FilePage::Done {
                    page: complete_page(files, statistics, values),
                },
                Reply::Failure { message, missing_table } => {
                    if missing_table {
                        FilePage::Done { page: complete_page(files, statistics, Vec::new()) }
                    } else {
                        FilePage::Failed { message }
                    }
                },
            },
            other => other,
        }
    }
}

/// What a page holds: the listed files, all of them and in the order listed,
/// each with the statistics and the partition values that belong to it.
pub open spec fn is_page(
    page: Seq<DuckLakeFileMetadata>,
    files: Seq<DuckLakeTableFile>,
    statistics: Seq<DuckLakeFileColumnStatistics>,
    values: Seq<(i64, (i32, Option<String>))>,
) -> bool {
    &&& page.len() == files.len()
    &&& forall|i: int|
        0 <= i < page.len() ==> {
            &&& has_its_values((#[trigger] page[i]).file, files, i, values)
            &&& page[i].column_statistics@ == if is_first_of_id(files, i) {
                rows_of(keyed_statistics(statistics), files[i].data_file_id)
            } else {
                Seq::empty()
            }
        }
}

fn complete_page(
    files: Vec<DuckLakeTableFile>,
    statistics: Vec<DuckLakeFileColumnStatistics>,
    values: Vec<(i64, (i32, Option<String>))>,
) -> (page: Vec<DuckLakeFileMetadata>)
    ensures
        is_page(page@, files@, statistics@, values@),
{
    let valued = attach_partition_values(files, values);
    let page = attach_statistics(valued, statistics);
    proof {
        assert forall|i: int| 0 <= i < valued@.len() implies (#[trigger] valued@[i]).data_file_id
            == files@[i].data_file_id by {
            assert(has_its_values(valued@[i], files@, i, values@));
        }
        assert forall|i: int| 0 <= i < page@.len() implies {
            &&& has_its_values((#[trigger] page@[i]).file, files@, i, values@)
            &&& page@[i].column_statistics@ == if is_first_of_id(files@, i) {
                rows_of(keyed_statistics(statistics@), files@[i].data_file_id)
            } else {
                Seq::empty()
            }
        } by {
            assert(has_its_statistics(page@[i], valued@, i, statistics@));
            assert(has_its_values(valued@[i], files@, i, values@));
            if is_first_of_id(files@, i) {
                assert(is_first_of_id(valued@, i)) by {
                    assert forall|j: int| 0 <= j < i implies (#[trigger] valued@[j]).data_file_id
                        != valued@[i].data_file_id by {
                        assert(files@[j].data_file_id != files@[i].data_file_id);
                    }
                }
            } else {
                let j = choose|j: int|
                    0 <= j < i && (#[trigger] files@[j]).data_file_id == files@[i].data_file_id;
                assert(valued@[j].data_file_id == valued@[i].data_file_id);
                assert(!is_first_of_id(valued@, i));
            }
        }
    }
    page
}

// ---------------------------------------------------------------------------
// Pages one behind the other
// ---------------------------------------------------------------------------

/// The files of a table stand in the order of their ids, each id once.
pub open spec fn ids_ascend(files: Seq<DuckLakeTableFile>) -> bool {
    forall|i: int, j: int|
        0 <= i < j < files.len() ==> (#[trigger] files[i]).data_file_id < (
        #[trigger] files[j]).data_file_id
}

/// The files behind an id.
pub open spec fn files_behind(files: Seq<DuckLakeTableFile>, after: i64) -> Seq<DuckLakeTableFile> {
    files.filter(|file: DuckLakeTableFile| file.data_file_id > after)
}

/// What a listing of the files of a table replies: of those that the filter keeps, in
/// the order of their ids, the first `limit` behind an id. The filter stands in front of
/// the limit, so a listing without files leaves none behind.
pub open spec fn listing(
    files: Seq<DuckLakeTableFile>,
    keeps: spec_fn(DuckLakeTableFile) -> bool,
    after: i64,
    limit: int,
) -> Seq<DuckLakeTableFile> {
    let behind = files_behind(files.filter(keeps), after);
    if behind.len() > limit {
        behind.take(limit)
    } else {
        behind
    }
}

/// The ids of listed files.
pub open spec fn listed_ids(files: Seq<DuckLakeTableFile>) -> Seq<i64> {
    files.map_values(|file: DuckLakeTableFile| file.data_file_id)
}

/// The ids of the files of a page.
pub open spec fn page_ids(page: Seq<DuckLakeFileMetadata>) -> Seq<i64> {
    page.map_values(|metadata: DuckLakeFileMetadata| metadata.file.data_file_id)
}

/// The id behind which the `k`th of some pages starts: the last one of the page before
/// it, and that of the request for the first.
pub open spec fn page_cursor(
    after_data_file_id: Option<i64>,
    pages: Seq<Seq<DuckLakeFileMetadata>>,
    k: int,
) -> Option<i64> {
    if k <= 0 {
        after_data_file_id
    } else {
        Some(pages[k - 1].last().file.data_file_id)
    }
}

/// Whether a page holds what was listed for it, with some statistics and values.
pub open spec fn is_page_of(
    page: Seq<DuckLakeFileMetadata>,
    files: Seq<DuckLakeTableFile>,
) -> bool {
    exists|
        statistics: Seq<DuckLakeFileColumnStatistics>,
        values: Seq<(i64, (i32, Option<String>))>,
    | #[trigger]
        is_page(page, files, statistics, values)
}

/// Whether `pages` are read one behind the other, up to the first one without files.
pub open spec fn are_consecutive_pages(
    files: Seq<DuckLakeTableFile>,
    keeps: spec_fn(DuckLakeTableFile) -> bool,
    after_data_file_id: Option<i64>,
    limit: int,
    pages: Seq<Seq<DuckLakeFileMetadata>>,
) -> bool {
    &&& pages.len() > 0
    &&& pages.last().len() == 0
    &&& forall|k: int| 0 <= k < pages.len() - 1 ==> (#[trigger] pages[k]).len() > 0
    &&& forall|k: int|
        0 <= k < pages.len() ==> is_page_of(
            #[trigger] pages[k],
            listing(files, keeps, page_start(page_cursor(after_data_file_id, pages, k)), limit),
        )
}

proof fn lemma_page_ids(page: Seq<DuckLakeFileMetadata>, files: Seq<DuckLakeTableFile>)
    requires
        is_page_of(page, files),
    ensures
        page_ids(page) == listed_ids(files),
        page.len() == files.len(),
{
    let (statistics, values) = choose|
        statistics: Seq<DuckLakeFileColumnStatistics>,
        values: Seq<(i64, (i32, Option<String>))>,
    | #[trigger]
        is_page(page, files, statistics, values);
    assert forall|i: int| 0 <= i < page.len() implies (#[trigger] page[i]).file.data_file_id
        == files[i].data_file_id by {
        assert(has_its_values(page[i].file, files, i, values));
    }
    assert(page_ids(page) =~= listed_ids(files));
}

/// A filter keeps the order.
proof fn lemma_filter_ascends(
    files: Seq<DuckLakeTableFile>,
    keeps: spec_fn(DuckLakeTableFile) -> bool,
)
    requires
        ids_ascend(files),
    ensures
        ids_ascend(files.filter(keeps)),
        files.filter(keeps).len() <= files.len(),
        forall|i: int|
            0 <= i < files.filter(keeps).len() ==> files.contains(#[trigger] files.filter(keeps)[i]),
    decreases files.len(),
{
    reveal(Seq::filter);
    if files.len() > 0 {
        let front = files.drop_last();
        let last = files.last();
        lemma_filter_ascends(front, keeps);
        let kept = front.filter(keeps);
        assert forall|i: int| 0 <= i < kept.len() implies (#[trigger] kept[i]).data_file_id
            < last.data_file_id && files.contains(kept[i]) by {
            let j = choose|j: int| 0 <= j < front.len() && front[j] == kept[i];
            assert(files[j] == kept[i]);
            assert(files[files.len() - 1] == last);
        }
        assert(files.contains(last));
    }
}

/// The files behind an id are the end of the files in order.
proof fn lemma_files_behind(files: Seq<DuckLakeTableFile>, after: i64) -> (start: int)
    requires
        ids_ascend(files),
    ensures
        0 <= start <= files.len(),
        files_behind(files, after) == files.skip(start),
        forall|i: int| 0 <= i < start ==> (#[trigger] files[i]).data_file_id <= after,
        forall|i: int| start <= i < files.len() ==> (#[trigger] files[i]).data_file_id > after,
    decreases files.len(),
{
    reveal(Seq::filter);
    if files.len() == 0 {
        assert(files_behind(files, after) =~= files.skip(0));
        0
    } else {
        let front = files.drop_last();
        let start = lemma_files_behind(front, after);
        let last = files.len() - 1;
        assert(forall|i: int| 0 <= i < last ==> #[trigger] files[i] == front[i]);
        if files[last].data_file_id > after {
            assert(files_behind(files, after) =~= files.skip(start));
            start
        } else {
            if start < last {
                assert(front[start].data_file_id > after);
                assert(files[start].data_file_id < files[last].data_file_id);
            }
            assert(start == last);
            assert(files_behind(files, after) =~= files.skip(files.len() as int));
            files.len() as int
        }
    }
}

/// A listing with files, and then the files behind its last one, are the files behind
/// the id that it started from.
proof fn lemma_listing_goes_on(
    files: Seq<DuckLakeTableFile>,
    keeps: spec_fn(DuckLakeTableFile) -> bool,
    after: i64,
    limit: int,
)
    requires
        ids_ascend(files),
        limit >= 1,
    ensures
        ({
            let listed = listing(files, keeps, after, limit);
            let kept = files.filter(keeps);
            if listed.len() == 0 {
                files_behind(kept, after) == Seq::<DuckLakeTableFile>::empty()
            } else {
                files_behind(kept, after) == listed + files_behind(
                    kept,
                    listed.last().data_file_id,
                )
            }
        }),
{
    let listed = listing(files, keeps, after, limit);
    let kept = files.filter(keeps);
    lemma_filter_ascends(files, keeps);
    let start = lemma_files_behind(kept, after);
    if listed.len() == 0 {
        assert(files_behind(kept, after) =~= Seq::<DuckLakeTableFile>::empty());
    } else {
        let last = listed.last().data_file_id;
        let end = start + listed.len();
        assert(listed =~= kept.subrange(start, end));
        assert(kept[end - 1].data_file_id == last);
        let next = lemma_files_behind(kept, last);
        if next < end {
            assert(kept[end - 1].data_file_id > last);
        }
        if next > end {
            assert(kept[end].data_file_id <= last);
            assert(kept[end - 1].data_file_id < kept[end].data_file_id);
        }
        assert(kept.skip(start) =~= listed + kept.skip(end));
    }
}

/// Pages put one behind the other, up to the first one without files, hold the files
/// that one page without a limit holds, in the same order: no file that the filter keeps
/// is skipped or comes twice, however many files a page takes, and a page without files
/// means that none is left.
pub proof fn lemma_pages_are_the_listing(
    files: Seq<DuckLakeTableFile>,
    keeps: spec_fn(DuckLakeTableFile) -> bool,
    after_data_file_id: Option<i64>,
    limit: int,
    pages: Seq<Seq<DuckLakeFileMetadata>>,
    unlimited: int,
)
    requires
        ids_ascend(files),
        limit >= 1,
        unlimited >= files.len(),
        are_consecutive_pages(files, keeps, after_data_file_id, limit, pages),
    ensures
        page_ids(pages.flatten()) == listed_ids(
            listing(files, keeps, page_start(after_data_file_id), unlimited),
        ),
        files_behind(
            files.filter(keeps),
            page_start(page_cursor(after_data_file_id, pages, pages.len() - 1)),
        ).len() == 0,
    decreases pages.len(),
{
    let after = page_start(after_data_file_id);
    let kept = files.filter(keeps);
    let first = pages[0];
    let listed = listing(files, keeps, after, limit);
    assert(page_cursor(after_data_file_id, pages, 0) == after_data_file_id);
    assert(is_page_of(first, listed));
    lemma_page_ids(first, listed);
    lemma_listing_goes_on(files, keeps, after, limit);
    lemma_filter_ascends(files, keeps);
    let start = lemma_files_behind(kept, after);
    assert(listing(files, keeps, after, unlimited) == files_behind(kept, after));
    if pages.len() == 1 {
        assert(pages.flatten() == first + pages.drop_first().flatten());
        assert(pages.drop_first().flatten().len() == 0);
        assert(pages.flatten() =~= first);
        assert(page_ids(pages.flatten()) =~= listed_ids(files_behind(kept, after)));
    } else {
        let rest = pages.drop_first();
        let last = first.last().file.data_file_id;
        assert(page_ids(first).last() == last);
        assert(listed_ids(listed).last() == listed.last().data_file_id);
        assert forall|k: int| 0 <= k < rest.len() implies is_page_of(
            #[trigger] rest[k],
            listing(files, keeps, page_start(page_cursor(Some(last), rest, k)), limit),
        ) by {
            assert(is_page_of(
                pages[k + 1],
                listing(
                    files,
                    keeps,
                    page_start(page_cursor(after_data_file_id, pages, k + 1)),
                    limit,
                ),
            ));
            assert(page_cursor(Some(last), rest, k) == page_cursor(
                after_data_file_id,
                pages,
                k + 1,
            ));
        }
        assert forall|k: int| 0 <= k < rest.len() - 1 implies (#[trigger] rest[k]).len() > 0 by {
            assert(pages[k + 1].len() > 0);
        }
        lemma_pages_are_the_listing(files, keeps, Some(last), limit, rest, unlimited);
        let next = lemma_files_behind(kept, last);
        assert(listing(files, keeps, last, unlimited) == files_behind(kept, last));
        assert(pages.flatten() == first + rest.flatten());
        assert(page_ids(first + rest.flatten()) =~= page_ids(first) + page_ids(rest.flatten()));
        assert(listed_ids(listed + files_behind(kept, last)) =~= listed_ids(listed) + listed_ids(
            files_behind(kept, last),
        ));
        assert(page_cursor(Some(last), rest, rest.len() - 1) == page_cursor(
            after_data_file_id,
            pages,
            pages.len() - 1,
        ));
    }
}

// ---------------------------------------------------------------------------
// Which rows a file is given
// ---------------------------------------------------------------------------

/// The values of the rows that name an id are those of all such rows, in their order.
pub proof fn lemma_rows_of<T>(rows: Seq<(i64, T)>, id: i64)
    ensures
        rows_of(rows, id) == rows.filter(|row: (i64, T)| row.0 == id).map_values(
            |row: (i64, T)| row.1,
        ),
    decreases rows.len(),
{
    reveal(Seq::filter);
    let named = |row: (i64, T)| row.0 == id;
    let value = |row: (i64, T)| row.1;
    if rows.len() > 0 {
        lemma_rows_of(rows.drop_last(), id);
        let front = rows.drop_last().filter(named);
        assert(front.push(rows.last()).map_values(value) =~= front.map_values(value).push(
            rows.last().1,
        ));
    }
    assert(rows_of(rows, id) =~= rows.filter(named).map_values(value));
}

/// The statistics that name a file are all of those that do, in their order.
proof fn lemma_keyed_statistics(statistics: Seq<DuckLakeFileColumnStatistics>, id: i64)
    ensures
        rows_of(keyed_statistics(statistics), id) == statistics.filter(
            |statistic: DuckLakeFileColumnStatistics| statistic.data_file_id == id,
        ),
    decreases statistics.len(),
{
    reveal(Seq::filter);
    let named = |statistic: DuckLakeFileColumnStatistics| statistic.data_file_id == id;
    if statistics.len() > 0 {
        lemma_keyed_statistics(statistics.drop_last(), id);
        let keyed = keyed_statistics(statistics);
        assert(keyed.drop_last() =~= keyed_statistics(statistics.drop_last()));
        assert(keyed.last() == (statistics.last().data_file_id, statistics.last()));
    }
    assert(rows_of(keyed_statistics(statistics), id) =~= statistics.filter(named));
}

/// A listed file is given every statistic that names its id and no other, in the order
/// in which they were read: none is lost and none comes twice. Where an id was listed
/// more than once, its first file has them.
pub proof fn lemma_file_statistics(
    out: DuckLakeFileMetadata,
    files: Seq<DuckLakeTableFile>,
    i: int,
    statistics: Seq<DuckLakeFileColumnStatistics>,
)
    requires
        0 <= i < files.len(),
        has_its_statistics(out, files, i, statistics),
    ensures
        out.file == files[i],
        (forall|j: int| 0 <= j < i ==> (#[trigger] files[j]).data_file_id != files[i].data_file_id)
            ==> out.column_statistics@ == statistics.filter(
            |statistic: DuckLakeFileColumnStatistics|
                statistic.data_file_id == files[i].data_file_id,
        ),
        (exists|j: int|
            0 <= j < i && (#[trigger] files[j]).data_file_id == files[i].data_file_id)
            ==> out.column_statistics@.len() == 0,
{
    lemma_keyed_statistics(statistics, files[i].data_file_id);
}

/// A listed file is given every partition value that names its id, each with its key
/// index, in the order in which they were read. All else of it stays as listed.
pub proof fn lemma_file_partition_values(
    out: DuckLakeTableFile,
    files: Seq<DuckLakeTableFile>,
    i: int,
    values: Seq<(i64, (i32, Option<String>))>,
)
    requires
        0 <= i < files.len(),
        has_its_values(out, files, i, values),
    ensures
        (forall|j: int| 0 <= j < i ==> (#[trigger] files[j]).data_file_id != files[i].data_file_id)
            && files[i].partition_values@.len() == 0 ==> out.partition_values@ == values.filter(
            |row: (i64, (i32, Option<String>))| row.0 == files[i].data_file_id,
        ).map_values(|row: (i64, (i32, Option<String>))| row.1),
        (forall|j: int| 0 <= j < i ==> (#[trigger] files[j]).data_file_id != files[i].data_file_id)
            && (exists|k: int|
            0 <= k < values.len() && (#[trigger] values[k]).0 == files[i].data_file_id)
            ==> out.partition_values@ == values.filter(
            |row: (i64, (i32, Option<String>))| row.0 == files[i].data_file_id,
        ).map_values(|row: (i64, (i32, Option<String>))| row.1),
        (forall|k: int| 0 <= k < values.len() ==> (#[trigger] values[k]).0 != files[i].data_file_id)
            ==> out.partition_values@ == files[i].partition_values@,
        out.data_file_id == files[i].data_file_id,
        out.file == files[i].file,
        out.delete_file_id == files[i].delete_file_id,
        out.delete_file == files[i].delete_file,
        out.row_id_start == files[i].row_id_start,
        out.snapshot_id == files[i].snapshot_id,
        out.begin_snapshot == files[i].begin_snapshot,
        out.schema_version == files[i].schema_version,
        out.partial_max == files[i].partial_max,
        out.max_row_count == files[i].max_row_count,
        out.delete_count == files[i].delete_count,
        out.partition_id == files[i].partition_id,
{
    let id = files[i].data_file_id;
    let named = |row: (i64, (i32, Option<String>))| row.0 == id;
    lemma_rows_of(values, id);
    let kept = values.filter(named);
    if kept.len() > 0 {
        values.lemma_filter_pred(named, 0);
        assert(kept.contains(kept[0]));
        values.lemma_filter_contains_rev(named, kept[0]);
    }
    if exists|k: int| 0 <= k < values.len() && (#[trigger] values[k]).0 == id {
        let k = choose|k: int| 0 <= k < values.len() && (#[trigger] values[k]).0 == id;
        values.lemma_filter_contains(named, k);
    }
    if kept.len() == 0 {
        assert(kept.map_values(|row: (i64, (i32, Option<String>))| row.1) =~= Seq::empty());
    }
}

/// A page holds every listed file, in the order listed, each with all of the statistics
/// and all of the partition values that name it.
pub proof fn lemma_page_is_complete(
    page: Seq<DuckLakeFileMetadata>,
    files: Seq<DuckLakeTableFile>,
    statistics: Seq<DuckLakeFileColumnStatistics>,
    values: Seq<(i64, (i32, Option<String>))>,
    i: int,
)
    requires
        is_page(page, files, statistics, values),
        ids_ascend(files),
        0 <= i < files.len(),
        files[i].partition_values@.len() == 0,
    ensures
        page.len() == files.len(),
        page[i].file.data_file_id == files[i].data_file_id,
        page[i].file.file == files[i].file,
        page[i].file.delete_file == files[i].delete_file,
        page[i].column_statistics@ == statistics.filter(
            |statistic: DuckLakeFileColumnStatistics|
                statistic.data_file_id == files[i].data_file_id,
        ),
        page[i].file.partition_values@ == values.filter(
            |row: (i64, (i32, Option<String>))| row.0 == files[i].data_file_id,
        ).map_values(|row: (i64, (i32, Option<String>))| row.1),
{
    assert(has_its_values(page[i].file, files, i, values));
    lemma_file_partition_values(page[i].file, files, i, values);
    lemma_keyed_statistics(statistics, files[i].data_file_id);
}

/// The statistics of two ids never mix: a statistic is given to the file that it names.
pub proof fn lemma_statistics_do_not_mix(
    page: Seq<DuckLakeFileMetadata>,
    files: Seq<DuckLakeTableFile>,
    statistics: Seq<DuckLakeFileColumnStatistics>,
    values: Seq<(i64, (i32, Option<String>))>,
    i: int,
    k: int,
)
    requires
        is_page(page, files, statistics, values),
        0 <= i < page.len(),
        0 <= k < page[i].column_statistics@.len(),
    ensures
        page[i].column_statistics@[k].data_file_id == files[i].data_file_id,
        statistics.contains(page[i].column_statistics@[k]),
{
    let id = files[i].data_file_id;
    let named = |statistic: DuckLakeFileColumnStatistics| statistic.data_file_id == id;
    assert(has_its_values(page[i].file, files, i, values));
    lemma_keyed_statistics(statistics, id);
    statistics.lemma_filter_pred(named, k);
    let kept = statistics.filter(named);
    assert(kept.contains(kept[k]));
    statistics.lemma_filter_contains_rev(named, kept[k]);
}

/// A page without a cursor starts in front of every file, and one with a cursor behind
/// exactly the files up to it.
pub proof fn lemma_page_start(cursor: i64, file_id: i64)
    ensures
        file_id != i64::MIN ==> file_id > page_start(None),
        file_id > page_start(Some(cursor)) <==> file_id > cursor,
{
}

/// The ids in a list are separated by a comma and a space, and none is left out.
pub proof fn lemma_id_list(files: Seq<DuckLakeTableFile>, next: DuckLakeTableFile)
    ensures
        id_list_text(seq![next]) == int_text(next.data_file_id as int),
        files.len() > 0 ==> id_list_text(files.push(next)) == id_list_text(files) + ", "@
            + int_text(next.data_file_id as int),
{
    let ids = |file: DuckLakeTableFile| int_text(file.data_file_id as int);
    assert(seq![next].map_values(ids).len() == 1);
    assert(seq![next].map_values(ids)[0] == int_text(next.data_file_id as int));
    if files.len() > 0 {
        let all = files.push(next).map_values(ids);
        assert(all.drop_last() =~= files.map_values(ids));
        assert(all.last() == int_text(next.data_file_id as int));
    }
}

/// Every file lies in the range of ids, and the range lies in every other that has all
/// of the files.
pub proof fn lemma_id_range(
    files: Seq<DuckLakeTableFile>,
    range: (i64, i64),
    low: i64,
    high: i64,
)
    requires
        is_id_range(files, range),
    ensures
        forall|i: int|
            0 <= i < files.len() ==> range.0 <= (#[trigger] files[i]).data_file_id <= range.1,
        (forall|i: int| 0 <= i < files.len() ==> low <= (#[trigger] files[i]).data_file_id <= high)
            ==> low <= range.0 && range.1 <= high,
{
}

} // verus!
