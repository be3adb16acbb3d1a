//! Reclaiming files: those that were scheduled for deletion, and those that no
//! catalog knows.
//!
//! The metadata database and the object store are the caller's. Here it is decided
//! which objects go, in what order, and what follows from the outcome of each
//! deletion.

use vstd::prelude::*;

use crate::inlined::contains_name;
use crate::scan::{strip_leading, text_ends_with, without_leading};
use crate::text::views;
use crate::timestamps::UtcTimestamp;

verus! {

/// Which snapshots expire. The most recent one never does.
#[derive(Debug, Clone, PartialEq, Eq)]
pub enum ExpireCriteria {
    /// The snapshots of these ids.
    Versions(Vec<i64>),
    /// The snapshots before this moment.
    OlderThan(UtcTimestamp),
}

/// Which files are deleted.
#[derive(Debug, Clone, Copy, PartialEq, Eq, Structural)]
pub enum CleanupCriteria {
    /// All of them.
    All,
    /// Those from before this moment.
    OlderThan(UtcTimestamp),
}

/// A snapshot that has expired.
#[derive(Debug, Clone, PartialEq, Eq)]
pub struct ExpiredSnapshot {
    pub snapshot_id: i64,
    /// When it was made, as the catalog has it.
    pub snapshot_time: String,
}

/// A file that is scheduled for deletion.
#[derive(Debug, Clone, PartialEq, Eq)]
pub struct ScheduledFile {
    pub data_file_id: i64,
    pub path: String,
    /// Whether `path` starts at the data path of the catalog.
    pub path_is_relative: bool,
}

// ---------------------------------------------------------------------------
// Keys of objects
// ---------------------------------------------------------------------------

/// The key that `object_store` gives to a path.
pub uninterp spec fn object_store_key(path: Seq<char>) -> Seq<char>;

/// `object_store::path::Path::from` turns a path into the key of an object: its
/// parts without the empty ones, with the characters that no key may hold encoded,
/// joined by `/`. The key depends on the path alone.
#[verifier::external_body]
fn path_to_key(path: &str) -> (key: String)
    ensures
        key@ == object_store_key(path@),
{
    object_store::path::Path::from(path).to_string()
}

/// The key of the object at an absolute path.
pub open spec fn key_of(path: Seq<char>) -> Seq<char> {
    object_store_key(without_leading(path, '/'))
}

/// The key of the object at an absolute path.
pub fn object_key(path: &str) -> (key: String)
    ensures
        key@ == key_of(path@),
{
    let relative = strip_leading(path, '/');
    path_to_key(relative.as_str())
}

// ---------------------------------------------------------------------------
// Deleting objects one by one
// ---------------------------------------------------------------------------

/// What came of the deletion of an object.
#[derive(Debug, Clone, PartialEq, Eq)]
pub enum Deletion {
    Deleted,
    /// There was none: an earlier run, or somebody else, was faster.
    NotFound,
    Failed(String),
}

/// Where a deletion of objects stands.
#[derive(Debug, Clone, PartialEq, Eq)]
pub enum Cleanup {
    /// Delete the object `keys[next]`.
    Deleting { keys: Vec<String>, next: usize, ids: Vec<i64>, paths: Vec<String> },
    /// Remove these rows from the schedule.
    RemoveRows { ids: Vec<i64>, paths: Vec<String> },
    /// All objects are gone: report their paths.
    Done { paths: Vec<String> },
    Failed { message: String },
}

/// Whether `state` is the one behind the deletion of the last object.
pub open spec fn is_emptied(state: Cleanup, ids: Vec<i64>, paths: Vec<String>) -> bool {
    if ids@.len() > 0 {
        state == (Cleanup::RemoveRows { ids, paths })
    } else {
        state == (Cleanup::Done { paths })
    }
}

/// Starts the deletion of objects. `ids` are the rows that are removed once they are
/// gone, `paths` what is reported. A dry run reports the paths at once.
pub fn begin_cleanup(keys: Vec<String>, ids: Vec<i64>, paths: Vec<String>, dry_run: bool) -> (state:
    Cleanup)
    ensures
        if dry_run || (keys@.len() == 0 && ids@.len() == 0) {
            state == (Cleanup::Done { paths })
        } else if keys@.len() == 0 {
            state == (Cleanup::RemoveRows { ids, paths })
        } else {
            state == (Cleanup::Deleting { keys, next: 0, ids, paths })
        },
{
    if dry_run {
        Cleanup::Done { paths }
    } else if keys.len() > 0 {
        Cleanup::Deleting { keys, next: 0, ids, paths }
    } else if ids.len() > 0 {
        Cleanup::RemoveRows { ids, paths }
    } else {
        Cleanup::Done { paths }
    }
}

impl Cleanup {
    /// There is an object to delete.
    pub open spec fn wf(self) -> bool {
        self matches Cleanup::Deleting { keys, next, .. } ==> next < keys@.len()
    }

    /// Whether `next_state` is the state behind this one.
    pub open spec fn leads_to(self, outcome: Deletion, next_state: Self) -> bool {
        match self {
            Cleanup::Deleting { keys, next, ids, paths } => match outcome {
                Deletion::Failed(message) => next_state == (Cleanup::Failed { message }),
                _ => if next + 1 < keys@.len() {
                    next_state == (Cleanup::Deleting { keys, next: (next + 1) as usize, ids, paths })
                } else {
                    is_emptied(next_state, ids, paths)
                },
            },
            Cleanup::RemoveRows { ids, paths } => match outcome {
                Deletion::Failed(message) => next_state == (Cleanup::Failed { message }),
                _ => next_state == (Cleanup::Done { paths }),
            },
            _ => next_state == self,
        }
    }

    /// Goes on with the outcome of the deletion. An object that is not there counts
    /// as deleted; a failure ends the cleanup, with the rows still on the schedule.
    pub fn step(self, outcome: Deletion) -> (next_state: Self)
        requires
            self.wf(),
        ensures
            next_state.wf(),
            self.leads_to(outcome, next_state),
    {
        match self {
            Cleanup::Deleting { keys, next, ids, paths } => match outcome {
                Deletion::Failed(message) => Cleanup::Failed { message },
                _ => {
                    let left: usize = keys.len() - next;
                    if left > 1 {
                        Cleanup::Deleting { keys, next: next + 1, ids, paths }
                    } else if ids.len() > 0 {
                        Cleanup::RemoveRows { ids, paths }
                    } else {
                        Cleanup::Done { paths }
                    }
                },
            },
            Cleanup::RemoveRows { ids, paths } => match outcome {
                Deletion::Failed(message) => Cleanup::Failed { message },
                _ => Cleanup::Done { paths },
            },
            Cleanup::Done { paths } => Cleanup::Done { paths },
            Cleanup::Failed { message } => Cleanup::Failed { message },
        }
    }
}

/// Whether a run of states follows from the outcomes of its deletions.
pub open spec fn is_run(states: Seq<Cleanup>, outcomes: Seq<Deletion>) -> bool {
    &&& states.len() == outcomes.len() + 1
    &&& forall|i: int|
        0 <= i < outcomes.len() ==> #[trigger] states[i].leads_to(outcomes[i], states[i + 1])
}

/// Rows leave the schedule only once every object is gone: a run that starts at the
/// first object and gets to the removal of rows has as many outcomes as there are
/// objects, and none of them is a failure.
pub proof fn lemma_rows_are_removed_last(
    states: Seq<Cleanup>,
    outcomes: Seq<Deletion>,
    keys: Vec<String>,
    ids: Vec<i64>,
    paths: Vec<String>,
)
    requires
        keys@.len() > 0,
        is_run(states, outcomes),
        states[0] == (Cleanup::Deleting { keys, next: 0, ids, paths }),
        states.last() is RemoveRows,
    ensures
        outcomes.len() == keys@.len(),
        forall|i: int| 0 <= i < outcomes.len() ==> !(#[trigger] outcomes[i] is Failed),
{
    let n = outcomes.len() as int;
    lemma_run(states, outcomes, keys, ids, paths, n);
    if n < keys@.len() {
        assert(states[n] is Deleting || states[n] is Failed);
    }
    assert forall|i: int| 0 <= i < n implies !(#[trigger] outcomes[i] is Failed) by {
        if outcomes[i] is Failed {
            lemma_run(states, outcomes, keys, ids, paths, i);
            assert(states[i].leads_to(outcomes[i], states[i + 1]));
            lemma_over_stays(states, outcomes, i + 1, n);
        }
    }
    if n > keys@.len() {
        let last = keys@.len() as int;
        lemma_run(states, outcomes, keys, ids, paths, last);
        assert(states[last].leads_to(outcomes[last], states[last + 1]));
        lemma_over_stays(states, outcomes, last + 1, n);
    }
}

/// The `i`th state of a run.
proof fn lemma_run(
    states: Seq<Cleanup>,
    outcomes: Seq<Deletion>,
    keys: Vec<String>,
    ids: Vec<i64>,
    paths: Vec<String>,
    i: int,
)
    requires
        keys@.len() > 0,
        is_run(states, outcomes),
        states[0] == (Cleanup::Deleting { keys, next: 0, ids, paths }),
        0 <= i < states.len(),
    ensures
        i < keys@.len() ==> states[i] is Failed || states[i] == (Cleanup::Deleting {
            keys,
            next: i as usize,
            ids,
            paths,
        }),
        i == keys@.len() ==> states[i] is Failed || is_emptied(states[i], ids, paths),
    decreases i,
{
    assert(keys.len() == keys@.len());
    if i > 0 {
        if i <= keys@.len() {
            lemma_run(states, outcomes, keys, ids, paths, i - 1);
            assert(states[i - 1].leads_to(outcomes[i - 1], states[i - 1 + 1]));
        }
    }
}

/// A cleanup that is over stays so.
proof fn lemma_over_stays(states: Seq<Cleanup>, outcomes: Seq<Deletion>, i: int, j: int)
    requires
        is_run(states, outcomes),
        0 <= i <= j < states.len(),
        states[i] is Failed || states[i] is Done,
    ensures
        states[j] == states[i],
    decreases j - i,
{
    if i < j {
        lemma_over_stays(states, outcomes, i, j - 1);
        assert(states[j - 1].leads_to(outcomes[j - 1], states[j - 1 + 1]));
    }
}

// ---------------------------------------------------------------------------
// Scheduled files
// ---------------------------------------------------------------------------

/// The ids of scheduled files.
pub open spec fn ids_of(files: Seq<ScheduledFile>) -> Seq<i64> {
    files.map_values(|file: ScheduledFile| file.data_file_id)
}

/// The keys of the objects at these paths.
pub open spec fn keys_of(paths: Seq<Seq<char>>) -> Seq<Seq<char>> {
    paths.map_values(|path: Seq<char>| key_of(path))
}

/// Whether a state starts the deletion of these scheduled files.
pub open spec fn starts_cleanup(
    files: Seq<ScheduledFile>,
    resolved: Vec<String>,
    dry_run: bool,
    state: Cleanup,
) -> bool {
    if dry_run || files.len() == 0 {
        state == (Cleanup::Done { paths: resolved })
    } else {
        &&& state matches Cleanup::Deleting { keys, next, ids, paths }
        &&& next == 0
        &&& views(keys@) == keys_of(views(resolved@))
        &&& ids@ == ids_of(files)
        &&& paths == resolved
    }
}

fn object_keys(paths: &Vec<String>) -> (keys: Vec<String>)
    ensures
        views(keys@) == keys_of(views(paths@)),
{
    let mut keys: Vec<String> = Vec::new();
    let mut i: usize = 0;
    while i < paths.len()
        invariant
            i <= paths@.len(),
            keys@.len() == i,
            forall|k: int| 0 <= k < i ==> (#[trigger] keys@[k])@ == key_of(paths@[k]@),
        decreases paths@.len() - i,
    {
        keys.push(object_key(paths[i].as_str()));
        i = i + 1;
    }
    assert(views(keys@) =~= keys_of(views(paths@)));
    keys
}

/// Starts the deletion of scheduled files. `resolved` are their absolute paths.
pub fn run_cleanup(files: &Vec<ScheduledFile>, resolved: Vec<String>, dry_run: bool) -> (state:
    Cleanup)
    requires
        resolved@.len() == files@.len(),
    ensures
        state.wf(),
        starts_cleanup(files@, resolved, dry_run, state),
{
    if files.len() == 0 {
        return Cleanup::Done { paths: resolved };
    }
    let mut ids: Vec<i64> = Vec::new();
    let mut i: usize = 0;
    while i < files.len()
        invariant
            i <= files@.len(),
            ids@.len() == i,
            forall|k: int| 0 <= k < i ==> #[trigger] ids@[k] == files@[k].data_file_id,
        decreases files@.len() - i,
    {
        ids.push(files[i].data_file_id);
        i = i + 1;
    }
    assert(ids@ =~= ids_of(files@));
    let keys = object_keys(&resolved);
    assert(keys@.len() == views(keys@).len() == files@.len());
    begin_cleanup(keys, ids, resolved, dry_run)
}

// ---------------------------------------------------------------------------
// Orphaned files
// ---------------------------------------------------------------------------

/// An object of the store.
#[derive(Debug, Clone, PartialEq, Eq)]
pub struct ObjectEntry {
    /// Its key.
    pub location: String,
    pub last_modified: UtcTimestamp,
}

/// Whether an object is old enough to be deleted. One that is not may be a file that
/// is being written.
pub open spec fn is_old_enough(entry: ObjectEntry, criteria: CleanupCriteria) -> bool {
    match criteria {
        CleanupCriteria::All => true,
        CleanupCriteria::OlderThan(cutoff) => entry.last_modified.precedes(cutoff),
    }
}

/// Whether an object is an orphan: a Parquet file that is old enough and whose key
/// is not that of any referenced path.
pub open spec fn is_orphan(
    entry: ObjectEntry,
    referenced: Seq<Seq<char>>,
    criteria: CleanupCriteria,
) -> bool {
    &&& ".parquet"@.is_suffix_of(entry.location@)
    &&& is_old_enough(entry, criteria)
    &&& !keys_of(referenced).contains(entry.location@)
}

/// The orphans among the objects, in their order.
pub open spec fn orphans_of(
    entries: Seq<ObjectEntry>,
    referenced: Seq<Seq<char>>,
    criteria: CleanupCriteria,
) -> Seq<ObjectEntry> {
    entries.filter(|entry: ObjectEntry| is_orphan(entry, referenced, criteria))
}

/// The keys of objects.
pub open spec fn locations(entries: Seq<ObjectEntry>) -> Seq<Seq<char>> {
    entries.map_values(|entry: ObjectEntry| entry.location@)
}

/// The keys as absolute paths.
pub open spec fn absolute(keys: Seq<Seq<char>>) -> Seq<Seq<char>> {
    keys.map_values(|key: Seq<char>| "/"@ + key)
}

/// Starts the deletion of orphans: of the objects below a data path, those that are
/// none of the `referenced` absolute paths.
pub fn run_orphan_cleanup(
    entries: &Vec<ObjectEntry>,
    referenced: &Vec<String>,
    criteria: &CleanupCriteria,
    dry_run: bool,
) -> (state: Cleanup)
    ensures
        state.wf(),
        ({
            let orphans = locations(orphans_of(entries@, views(referenced@), *criteria));
            if dry_run || orphans.len() == 0 {
                state matches Cleanup::Done { paths } && views(paths@) == absolute(orphans)
            } else {
                &&& state matches Cleanup::Deleting { keys, next, ids, paths }
                &&& next == 0
                &&& views(keys@) == orphans
                &&& ids@.len() == 0
                &&& views(paths@) == absolute(orphans)
            }
        }),
{
    let referenced_keys = object_keys(referenced);
    let ghost all = entries@;
    let ghost wanted = |entry: ObjectEntry| is_orphan(entry, views(referenced@), *criteria);
    let mut keys: Vec<String> = Vec::new();
    let mut paths: Vec<String> = Vec::new();
    let mut i: usize = 0;
    proof {
        reveal(Seq::filter);
        assert(all.take(0) =~= Seq::empty());
        assert(views(keys@) =~= locations(all.take(0).filter(wanted)));
        assert(views(paths@) =~= absolute(locations(all.take(0).filter(wanted))));
    }
    while i < entries.len()
        invariant
            all == entries@,
            wanted == (|entry: ObjectEntry| is_orphan(entry, views(referenced@), *criteria)),
            views(referenced_keys@) == keys_of(views(referenced@)),
            i <= all.len(),
            views(keys@) == locations(all.take(i as int).filter(wanted)),
            views(paths@) == absolute(locations(all.take(i as int).filter(wanted))),
        decreases all.len() - i,
    {
        let entry = &entries[i];
        let ghost before = all.take(i as int).filter(wanted);
        let ghost (old_keys, old_paths) = (keys@, paths@);
        proof {
            reveal(Seq::filter);
            assert(all.take(i as int + 1).drop_last() =~= all.take(i as int));
            assert(wanted(*entry) == is_orphan(*entry, views(referenced@), *criteria));
        }
        let old_enough = match criteria {
            CleanupCriteria::All => true,
            CleanupCriteria::OlderThan(cutoff) => entry.last_modified.is_before(cutoff),
        };
        if text_ends_with(entry.location.as_str(), ".parquet") && old_enough && !contains_name(
            &referenced_keys,
            entry.location.as_str(),
        ) {
            let mut path = "/".to_string();
            path.append(entry.location.as_str());
            paths.push(path);
            keys.push(entry.location.clone());
            proof {
                let after = before.push(*entry);
                assert(all.take(i as int + 1).filter(wanted) == after);
                assert(views(keys@) =~= views(old_keys).push(entry.location@));
                assert(locations(after) =~= locations(before).push(entry.location@));
                assert(views(paths@) =~= views(old_paths).push("/"@ + entry.location@));
                assert(absolute(locations(after)) =~= absolute(locations(before)).push(
                    "/"@ + entry.location@,
                ));
            }
        }
        i = i + 1;
    }
    assert(all.take(all.len() as int) =~= all);
    assert(views(keys@).len() == keys@.len());
    begin_cleanup(keys, Vec::new(), paths, dry_run)
}

/// No file that a catalog refers to is ever deleted as an orphan, and none that is
/// younger than the cutoff, and none that is not a Parquet file: the objects that a
/// sweep deletes are each one of those that were listed, and none of the three.
pub proof fn lemma_orphans_are_unreferenced(
    entries: Seq<ObjectEntry>,
    referenced: Seq<Seq<char>>,
    criteria: CleanupCriteria,
    key: Seq<char>,
)
    requires
        locations(orphans_of(entries, referenced, criteria)).contains(key),
    ensures
        exists|i: int|
            0 <= i < entries.len() && (#[trigger] entries[i]).location@ == key && is_old_enough(
                entries[i],
                criteria,
            ),
        ".parquet"@.is_suffix_of(key),
        forall|k: int| 0 <= k < referenced.len() ==> key_of(#[trigger] referenced[k]) != key,
{
    let wanted = |entry: ObjectEntry| is_orphan(entry, referenced, criteria);
    let orphans = orphans_of(entries, referenced, criteria);
    let n = choose|n: int| 0 <= n < locations(orphans).len() && locations(orphans)[n] == key;
    assert(orphans[n].location@ == key);
    entries.lemma_filter_pred(wanted, n);
    assert(orphans.contains(orphans[n]));
    entries.lemma_filter_contains_rev(wanted, orphans[n]);
    let i = choose|i: int| 0 <= i < entries.len() && entries[i] == orphans[n];
    assert(entries[i].location@ == key);
    assert forall|k: int| 0 <= k < referenced.len() implies key_of(#[trigger] referenced[k])
        != key by {
        assert(keys_of(referenced)[k] == key_of(referenced[k]));
    }
}

/// Whether the record of a dropped catalog's data path goes once the path is swept:
/// only a sweep that was carried out and left nothing for its age makes it
/// unnecessary.
pub fn clears_tombstone(criteria: &CleanupCriteria, dry_run: bool) -> (clears: bool)
    ensures
        clears == (!dry_run && criteria is All),
{
    match criteria {
        CleanupCriteria::All => !dry_run,
        CleanupCriteria::OlderThan(_) => false,
    }
}

// ---------------------------------------------------------------------------
// What a sweep and a cleanup do, on the objects themselves
// ---------------------------------------------------------------------------

/// Leading slashes and nothing else are taken off a path.
proof fn lemma_slashes_go(slashes: nat, rest: Seq<char>)
    requires
        rest.len() == 0 || rest[0] != '/',
    ensures
        without_leading(Seq::new(slashes, |i: int| '/') + rest, '/') == rest,
    decreases slashes,
{
    let path = Seq::new(slashes, |i: int| '/') + rest;
    if slashes == 0 {
        assert(path =~= rest);
    } else {
        lemma_slashes_go((slashes - 1) as nat, rest);
        assert(path.skip(1) =~= Seq::new((slashes - 1) as nat, |i: int| '/') + rest);
    }
}

/// The key of an absolute path is that of the path without the slashes in front of it.
pub proof fn lemma_key_of_path(slashes: nat, rest: Seq<char>)
    requires
        rest.len() == 0 || rest[0] != '/',
    ensures
        key_of(Seq::new(slashes, |i: int| '/') + rest) == object_store_key(rest),
{
    lemma_slashes_go(slashes, rest);
}

/// A sweep deletes exactly the objects that were listed, whose keys end in `.parquet`,
/// that are no referenced path, and that are older than the cutoff where there is one:
/// by whole seconds, and within one second by nanoseconds.
pub proof fn lemma_sweep(
    entries: Seq<ObjectEntry>,
    referenced: Seq<Seq<char>>,
    criteria: CleanupCriteria,
    key: Seq<char>,
)
    ensures
        locations(orphans_of(entries, referenced, criteria)).contains(key) <==> (exists|i: int|
            0 <= i < entries.len() && (#[trigger] entries[i]).location@ == key && (match criteria {
                CleanupCriteria::All => true,
                CleanupCriteria::OlderThan(cutoff) => entries[i].last_modified.seconds
                    < cutoff.seconds || (entries[i].last_modified.seconds == cutoff.seconds
                    && entries[i].last_modified.nanos < cutoff.nanos),
            })) && key.len() >= 8 && key.skip(key.len() - 8) == ".parquet"@ && !(exists|k: int|
            0 <= k < referenced.len() && key_of(#[trigger] referenced[k]) == key),
{
    reveal_strlit(".parquet");
    let wanted = |entry: ObjectEntry| is_orphan(entry, referenced, criteria);
    let orphans = orphans_of(entries, referenced, criteria);
    assert(".parquet"@.is_suffix_of(key) <==> key.len() >= 8 && key.skip(key.len() - 8)
        == ".parquet"@) by {
        if key.len() >= 8 {
            assert(key.skip(key.len() - 8) =~= key.subrange(key.len() - 8, key.len() as int));
        }
    }
    assert(keys_of(referenced).contains(key) <==> exists|k: int|
        0 <= k < referenced.len() && key_of(#[trigger] referenced[k]) == key) by {
        if keys_of(referenced).contains(key) {
            let k = choose|k: int| 0 <= k < referenced.len() && keys_of(referenced)[k] == key;
            assert(key_of(referenced[k]) == key);
        }
        if exists|k: int| 0 <= k < referenced.len() && key_of(#[trigger] referenced[k]) == key {
            let k = choose|k: int|
                0 <= k < referenced.len() && key_of(#[trigger] referenced[k]) == key;
            assert(keys_of(referenced)[k] == key);
        }
    }
    if locations(orphans).contains(key) {
        let n = choose|n: int| 0 <= n < locations(orphans).len() && locations(orphans)[n] == key;
        assert(orphans[n].location@ == key);
        entries.lemma_filter_pred(wanted, n);
        assert(orphans.contains(orphans[n]));
        entries.lemma_filter_contains_rev(wanted, orphans[n]);
        let i = choose|i: int| 0 <= i < entries.len() && entries[i] == orphans[n];
        assert(entries[i].location@ == key);
    }
    assert forall|i: int|
        0 <= i < entries.len() && wanted(#[trigger] entries[i]) implies locations(
        orphans,
    ).contains(entries[i].location@) by {
        entries.lemma_filter_contains(wanted, i);
        let n = choose|n: int| 0 <= n < orphans.len() && orphans[n] == entries[i];
        assert(locations(orphans)[n] == entries[i].location@);
    }
}

/// The nanoseconds from the start of 1970 to a moment.
pub open spec fn nanos_since_epoch(time: UtcTimestamp) -> int {
    time.seconds * 1_000_000_000 + time.nanos
}

/// An object that a sweep with a cutoff deletes lies before the cutoff on the line of
/// time, and one that lies there and is otherwise an orphan is deleted.
pub proof fn lemma_sweep_in_time(
    entries: Seq<ObjectEntry>,
    referenced: Seq<Seq<char>>,
    cutoff: UtcTimestamp,
    i: int,
)
    requires
        0 <= i < entries.len(),
        entries[i].last_modified.nanos < 1_000_000_000,
        cutoff.nanos < 1_000_000_000,
        forall|j: int|
            0 <= j < entries.len() && j != i ==> (#[trigger] entries[j]).location@
                != entries[i].location@,
    ensures
        locations(orphans_of(entries, referenced, CleanupCriteria::OlderThan(cutoff))).contains(
            entries[i].location@,
        ) <==> nanos_since_epoch(entries[i].last_modified) < nanos_since_epoch(cutoff)
            && ".parquet"@.is_suffix_of(entries[i].location@) && forall|k: int|
            0 <= k < referenced.len() ==> key_of(#[trigger] referenced[k]) != entries[i].location@,
{
    let key = entries[i].location@;
    reveal_strlit(".parquet");
    lemma_sweep(entries, referenced, CleanupCriteria::OlderThan(cutoff), key);
    assert(".parquet"@.is_suffix_of(key) <==> key.len() >= 8 && key.skip(key.len() - 8)
        == ".parquet"@) by {
        if key.len() >= 8 {
            assert(key.skip(key.len() - 8) =~= key.subrange(key.len() - 8, key.len() as int));
        }
    }
}

/// Orphans are swept in the order in which they were listed, each as often as it was.
pub proof fn lemma_sweep_keeps_order(
    first: Seq<ObjectEntry>,
    second: Seq<ObjectEntry>,
    referenced: Seq<Seq<char>>,
    criteria: CleanupCriteria,
)
    ensures
        orphans_of(first + second, referenced, criteria) == orphans_of(first, referenced, criteria)
            + orphans_of(second, referenced, criteria),
{
    let wanted = |entry: ObjectEntry| is_orphan(entry, referenced, criteria);
    Seq::filter_distributes_over_add(first, second, wanted);
}

/// A cleanup of scheduled files that is no dry run deletes the object of every file, in
/// order, and has the rows of exactly these files removed; it reports every path.
pub proof fn lemma_scheduled_files(
    files: Seq<ScheduledFile>,
    resolved: Vec<String>,
    dry_run: bool,
    state: Cleanup,
)
    requires
        resolved@.len() == files.len(),
        starts_cleanup(files, resolved, dry_run, state),
    ensures
        dry_run ==> state == (Cleanup::Done { paths: resolved }),
        !dry_run && files.len() > 0 ==> (state matches Cleanup::Deleting { keys, next, ids, paths }
            && next == 0 && keys@.len() == files.len() && ids@.len() == files.len() && paths@
            == resolved@ && forall|i: int|
            #![trigger keys@[i]]
            #![trigger ids@[i]]
            0 <= i < files.len() ==> keys@[i]@ == key_of(resolved@[i]@) && ids@[i]
                == files[i].data_file_id),
{
    if !dry_run && files.len() > 0 {
        if let Cleanup::Deleting { keys, next, ids, paths } = state {
            assert(views(keys@).len() == keys_of(views(resolved@)).len());
            assert forall|i: int|
                #![trigger keys@[i]]
                0 <= i < files.len() implies keys@[i]@ == key_of(resolved@[i]@) && ids@[i]
                == files[i].data_file_id by {
                assert(views(keys@)[i] == keys_of(views(resolved@))[i]);
            }
        }
    }
}

/// A cleanup in which no deletion fails deletes one object behind the other, then has
/// the rows removed where there are any, and reports all paths. One that was gone
/// already is no failure.
pub proof fn lemma_cleanup_goes_through(
    states: Seq<Cleanup>,
    outcomes: Seq<Deletion>,
    keys: Vec<String>,
    ids: Vec<i64>,
    paths: Vec<String>,
    i: int,
)
    requires
        keys@.len() > 0,
        is_run(states, outcomes),
        states[0] == (Cleanup::Deleting { keys, next: 0, ids, paths }),
        forall|k: int|
            0 <= k < outcomes.len() ==> (#[trigger] outcomes[k] is Deleted || outcomes[k] is NotFound),
        0 <= i < states.len(),
    ensures
        i < keys@.len() ==> (states[i] matches Cleanup::Deleting {
            keys: k,
            next,
            ids: d,
            paths: p,
        } && k == keys && next == i && d == ids && p == paths),
        i == keys@.len() && ids@.len() > 0 ==> states[i] == (Cleanup::RemoveRows { ids, paths }),
        i == keys@.len() && ids@.len() == 0 ==> states[i] == (Cleanup::Done { paths }),
        i > keys@.len() ==> states[i] == (Cleanup::Done { paths }),
    decreases i,
{
    assert(keys.len() == keys@.len());
    if i > 0 {
        lemma_cleanup_goes_through(states, outcomes, keys, ids, paths, i - 1);
        assert(states[i - 1].leads_to(outcomes[i - 1], states[i - 1 + 1]));
        assert(outcomes[i - 1] is Deleted || outcomes[i - 1] is NotFound);
    }
}

/// The first deletion that fails ends the cleanup with its message, and nothing follows
/// it: no object is deleted behind it and no row removed.
pub proof fn lemma_failure_ends_cleanup(
    states: Seq<Cleanup>,
    outcomes: Seq<Deletion>,
    message: String,
    i: int,
    j: int,
)
    requires
        is_run(states, outcomes),
        0 <= i < outcomes.len(),
        states[i] is Deleting || states[i] is RemoveRows,
        outcomes[i] == Deletion::Failed(message),
        i < j < states.len(),
    ensures
        states[j] == (Cleanup::Failed { message }),
    decreases j,
{
    assert(states[i].leads_to(outcomes[i], states[i + 1]));
    if j > i + 1 {
        lemma_failure_ends_cleanup(states, outcomes, message, i, j - 1);
        assert(states[j - 1].leads_to(outcomes[j - 1], states[j - 1 + 1]));
    }
}

/// An absolute path is the key behind a slash.
pub proof fn lemma_absolute_paths(keys: Seq<Seq<char>>, i: int)
    requires
        0 <= i < keys.len(),
    ensures
        absolute(keys).len() == keys.len(),
        absolute(keys)[i].len() == keys[i].len() + 1,
        absolute(keys)[i][0] == '/',
        absolute(keys)[i].skip(1) == keys[i],
{
    reveal_strlit("/");
    assert(("/"@ + keys[i]).skip(1) =~= keys[i]);
}

} // verus!
