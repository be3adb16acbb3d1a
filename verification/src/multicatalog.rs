//! Several catalogs in one metadata database: making, dropping and finding them.
//!
//! Each operation is a small state machine. The caller runs the statement that a
//! state asks for, inside one transaction where the operation changes something,
//! and hands back what came of it.

use vstd::prelude::*;

use crate::error::DuckLakeError;
use crate::scan::{is_blank, text_is_blank};

verus! {

// ---------------------------------------------------------------------------
// Names
// ---------------------------------------------------------------------------

/// The error on a catalog name that is blank.
pub const EMPTY_CATALOG_NAME: &'static str = "Catalog name cannot be empty";

/// The error on a schema name that is blank.
pub const EMPTY_SCHEMA_NAME: &'static str = "Schema name cannot be empty";

/// The error on a table name that is blank.
pub const EMPTY_TABLE_NAME: &'static str = "Table name cannot be empty";

/// Whether `error` is a configuration error with this message.
pub open spec fn is_config_error(error: DuckLakeError, message: Seq<char>) -> bool {
    error matches DuckLakeError::InvalidConfig(text) && text@ == message
}

/// The operations on the catalogs of a metadata database. They keep no state of
/// their own: several managers on one database do not disturb each other.
#[derive(Debug, Clone, Copy, PartialEq, Eq)]
pub struct MulticatalogManager;

// ---------------------------------------------------------------------------
// Creating a catalog
// ---------------------------------------------------------------------------

/// Where the creation of a catalog stands.
#[derive(Debug, Clone, PartialEq, Eq)]
pub enum CreateCatalog {
    /// Look the name up.
    Lookup,
    /// Insert it, unless it is there.
    Insert,
    /// Look it up again: another writer was faster.
    LookupAgain,
    /// The catalog is there, under this id.
    Created(i64),
    Refused(DuckLakeError),
}

/// The error where the name was neither inserted nor found.
pub open spec fn lost_catalog_text(name: Seq<char>) -> Seq<char> {
    "Catalog '"@ + name
        + "' insert conflicted but lookup found nothing — the row was inserted and then deleted concurrently"@
}

impl MulticatalogManager {
    /// Starts the creation of a catalog.
    pub fn create_catalog(name: &str) -> (state: CreateCatalog)
        ensures
            if is_blank(name@) {
                state matches CreateCatalog::Refused(error) && is_config_error(
                    error,
                    EMPTY_CATALOG_NAME@,
                )
            } else {
                state is Lookup
            },
    {
        if text_is_blank(name) {
            CreateCatalog::Refused(DuckLakeError::InvalidConfig(EMPTY_CATALOG_NAME.to_string()))
        } else {
            CreateCatalog::Lookup
        }
    }
}

impl CreateCatalog {
    /// Whether the creation is over.
    pub open spec fn is_over(self) -> bool {
        self is Created || self is Refused
    }

    /// Whether `next` is the state behind this one, by the id that the statement of
    /// this one gave.
    pub open spec fn leads_to(self, name: Seq<char>, id: Option<i64>, next: Self) -> bool {
        if self.is_over() {
            next == self
        } else {
            match id {
                Some(id) => next == CreateCatalog::Created(id),
                None => match self {
                    CreateCatalog::Lookup => next is Insert,
                    CreateCatalog::Insert => next is LookupAgain,
                    _ => {
                        &&& next matches CreateCatalog::Refused(DuckLakeError::Internal(message))
                        &&& message@ == lost_catalog_text(name)
                    },
                },
            }
        }
    }

    /// Goes on with the id that the statement gave, if it gave one.
    pub fn step(self, name: &str, id: Option<i64>) -> (next: Self)
        ensures
            self.leads_to(name@, id, next),
    {
        match self {
            CreateCatalog::Created(created) => CreateCatalog::Created(created),
            CreateCatalog::Refused(error) => CreateCatalog::Refused(error),
            state => match id {
                Some(id) => CreateCatalog::Created(id),
                None => match state {
                    CreateCatalog::Lookup => CreateCatalog::Insert,
                    CreateCatalog::Insert => CreateCatalog::LookupAgain,
                    _ => {
                        let mut message = "Catalog '".to_string();
                        message.append(name);
                        message.append(
                            "' insert conflicted but lookup found nothing — the row was inserted and then deleted concurrently",
                        );
                        CreateCatalog::Refused(DuckLakeError::Internal(message))
                    },
                },
            },
        }
    }
}

/// The creation of a catalog asks for at most three statements, and gives the id of
/// the first of them that had one: that of a catalog that was there, of the one that
/// was inserted, or of the one that another writer inserted meanwhile.
pub proof fn lemma_created_id(
    name: Seq<char>,
    found: Option<i64>,
    inserted: Option<i64>,
    found_again: Option<i64>,
    second: CreateCatalog,
    third: CreateCatalog,
    last: CreateCatalog,
)
    requires
        CreateCatalog::Lookup.leads_to(name, found, second),
        second.leads_to(name, inserted, third),
        third.leads_to(name, found_again, last),
    ensures
        last.is_over(),
        found is Some ==> last == CreateCatalog::Created(found->0),
        found is None && inserted is Some ==> last == CreateCatalog::Created(inserted->0),
        found is None && inserted is None && found_again is Some ==> last == CreateCatalog::Created(
            found_again->0,
        ),
{
}

// ---------------------------------------------------------------------------
// Dropping a catalog
// ---------------------------------------------------------------------------

/// Where the drop of a catalog stands.
#[derive(Debug, Clone, PartialEq, Eq)]
pub enum DropCatalog {
    /// Look the name up and lock its row.
    Lock,
    /// Delete the rows of `drop_order()[next]` that belong to the catalog.
    Delete { catalog_id: i64, next: usize },
    /// Commit, and report whether there was such a catalog.
    Commit { dropped: bool },
    Refused(DuckLakeError),
}

/// A table of the metadata database that holds rows of a catalog.
#[derive(Debug, Clone, Copy, PartialEq, Eq, Structural)]
pub enum CatalogTable {
    DataFile,
    DeleteFile,
    Column,
    SchemaVersions,
    Table,
    Schema,
    Snapshot,
    SchemaMap,
    SnapshotMap,
    Catalog,
}

/// The order in which the rows of a catalog are deleted.
pub open spec fn drop_order() -> Seq<CatalogTable> {
    seq![
        CatalogTable::DataFile,
        CatalogTable::DeleteFile,
        CatalogTable::Column,
        CatalogTable::SchemaVersions,
        CatalogTable::Table,
        CatalogTable::Schema,
        CatalogTable::Snapshot,
        CatalogTable::SchemaMap,
        CatalogTable::SnapshotMap,
        CatalogTable::Catalog,
    ]
}

/// Whether the deletion from `table` finds its rows through `other`.
pub open spec fn finds_rows_through(table: CatalogTable, other: CatalogTable) -> bool {
    match table {
        CatalogTable::DataFile | CatalogTable::DeleteFile => {
            other is Table || other is SchemaMap
        },
        CatalogTable::Column | CatalogTable::SchemaVersions => {
            other is Table || other is SchemaMap
        },
        CatalogTable::Table | CatalogTable::Schema => other is SchemaMap,
        CatalogTable::Snapshot => other is SnapshotMap,
        _ => false,
    }
}

/// The name of a table that holds rows of the tables of a catalog.
pub open spec fn child_table_name(table: CatalogTable) -> Option<Seq<char>> {
    match table {
        CatalogTable::DataFile => Some("ducklake_data_file"@),
        CatalogTable::DeleteFile => Some("ducklake_delete_file"@),
        CatalogTable::Column => Some("ducklake_column"@),
        CatalogTable::SchemaVersions => Some("ducklake_schema_versions"@),
        _ => None,
    }
}

/// The restriction to the tables of a catalog.
pub const OF_CATALOG_TABLES: &'static str = " WHERE table_id IN (
                    SELECT t.table_id FROM ducklake_table t
                    JOIN ducklake_catalog_schema_map m ON m.schema_id = t.schema_id
                    WHERE m.catalog_id = $1
                )";

pub const DELETE_TABLES: &'static str = "DELETE FROM ducklake_table WHERE schema_id IN (
                SELECT schema_id FROM ducklake_catalog_schema_map WHERE catalog_id = $1
            )";

pub const DELETE_SCHEMAS: &'static str = "DELETE FROM ducklake_schema WHERE schema_id IN (
                SELECT schema_id FROM ducklake_catalog_schema_map WHERE catalog_id = $1
            )";

pub const DELETE_SNAPSHOTS: &'static str = "DELETE FROM ducklake_snapshot WHERE snapshot_id IN (
                SELECT snapshot_id FROM ducklake_catalog_snapshot_map WHERE catalog_id = $1
            )";

pub const DELETE_SCHEMA_MAP: &'static str =
    "DELETE FROM ducklake_catalog_schema_map WHERE catalog_id = $1";

pub const DELETE_SNAPSHOT_MAP: &'static str =
    "DELETE FROM ducklake_catalog_snapshot_map WHERE catalog_id = $1";

pub const DELETE_CATALOG: &'static str = "DELETE FROM ducklake_catalog WHERE catalog_id = $1";

/// The statement that deletes the rows of a catalog from a table.
pub open spec fn delete_text(table: CatalogTable) -> Seq<char> {
    match child_table_name(table) {
        Some(name) => "DELETE FROM "@ + name + OF_CATALOG_TABLES@,
        None => match table {
            CatalogTable::Table => DELETE_TABLES@,
            CatalogTable::Schema => DELETE_SCHEMAS@,
            CatalogTable::Snapshot => DELETE_SNAPSHOTS@,
            CatalogTable::SchemaMap => DELETE_SCHEMA_MAP@,
            CatalogTable::SnapshotMap => DELETE_SNAPSHOT_MAP@,
            _ => DELETE_CATALOG@,
        },
    }
}

/// How many tables hold rows of a catalog.
pub const CATALOG_TABLES: usize = 10;

fn table_at(next: usize) -> (table: CatalogTable)
    requires
        next < CATALOG_TABLES,
    ensures
        table == drop_order()[next as int],
{
    if next == 0 {
        CatalogTable::DataFile
    } else if next == 1 {
        CatalogTable::DeleteFile
    } else if next == 2 {
        CatalogTable::Column
    } else if next == 3 {
        CatalogTable::SchemaVersions
    } else if next == 4 {
        CatalogTable::Table
    } else if next == 5 {
        CatalogTable::Schema
    } else if next == 6 {
        CatalogTable::Snapshot
    } else if next == 7 {
        CatalogTable::SchemaMap
    } else if next == 8 {
        CatalogTable::SnapshotMap
    } else {
        CatalogTable::Catalog
    }
}

fn delete_from(name: &str) -> (out: String)
    ensures
        out@ == "DELETE FROM "@ + name@ + OF_CATALOG_TABLES@,
{
    let mut out = "DELETE FROM ".to_string();
    out.append(name);
    out.append(OF_CATALOG_TABLES);
    out
}

/// The statement for the `next`th table, which takes the id of the catalog.
pub fn delete_sql(next: usize) -> (out: String)
    requires
        next < CATALOG_TABLES,
    ensures
        out@ == delete_text(drop_order()[next as int]),
{
    match table_at(next) {
        CatalogTable::DataFile => delete_from("ducklake_data_file"),
        CatalogTable::DeleteFile => delete_from("ducklake_delete_file"),
        CatalogTable::Column => delete_from("ducklake_column"),
        CatalogTable::SchemaVersions => delete_from("ducklake_schema_versions"),
        CatalogTable::Table => DELETE_TABLES.to_string(),
        CatalogTable::Schema => DELETE_SCHEMAS.to_string(),
        CatalogTable::Snapshot => DELETE_SNAPSHOTS.to_string(),
        CatalogTable::SchemaMap => DELETE_SCHEMA_MAP.to_string(),
        CatalogTable::SnapshotMap => DELETE_SNAPSHOT_MAP.to_string(),
        CatalogTable::Catalog => DELETE_CATALOG.to_string(),
    }
}

impl MulticatalogManager {
    /// Starts the drop of a catalog.
    pub fn drop_catalog(name: &str) -> (state: DropCatalog)
        ensures
            if is_blank(name@) {
                state matches DropCatalog::Refused(error) && is_config_error(error, EMPTY_CATALOG_NAME@)
            } else {
                state is Lock
            },
    {
        if text_is_blank(name) {
            DropCatalog::Refused(DuckLakeError::InvalidConfig(EMPTY_CATALOG_NAME.to_string()))
        } else {
            DropCatalog::Lock
        }
    }
}

impl DropCatalog {
    /// The next deletion is one of those that there are.
    pub open spec fn wf(self) -> bool {
        self matches DropCatalog::Delete { next, .. } ==> next < CATALOG_TABLES
    }

    /// The state behind this one, by the id that the lookup gave.
    pub open spec fn next_state(self, id: Option<i64>) -> Self {
        match self {
            DropCatalog::Lock => match id {
                Some(catalog_id) => DropCatalog::Delete { catalog_id, next: 0 },
                None => DropCatalog::Commit { dropped: false },
            },
            DropCatalog::Delete { catalog_id, next } => if next + 1 < CATALOG_TABLES {
                DropCatalog::Delete { catalog_id, next: (next + 1) as usize }
            } else {
                DropCatalog::Commit { dropped: true }
            },
            _ => self,
        }
    }

    /// Goes on: behind the lookup with the id of the catalog, if there is one, and
    /// behind a deletion with the next.
    pub fn step(self, id: Option<i64>) -> (next: Self)
        requires
            self.wf(),
        ensures
            next.wf(),
            next == self.next_state(id),
    {
        match self {
            DropCatalog::Lock => match id {
                Some(catalog_id) => DropCatalog::Delete { catalog_id, next: 0 },
                None => DropCatalog::Commit { dropped: false },
            },
            DropCatalog::Delete { catalog_id, next } => {
                if next + 1 < CATALOG_TABLES {
                    DropCatalog::Delete { catalog_id, next: next + 1 }
                } else {
                    DropCatalog::Commit { dropped: true }
                }
            },
            DropCatalog::Commit { dropped } => DropCatalog::Commit { dropped },
            DropCatalog::Refused(error) => DropCatalog::Refused(error),
        }
    }
}

/// The state after `count` deletions.
pub open spec fn after_deletions(catalog_id: i64, count: nat) -> DropCatalog
    decreases count,
{
    if count == 0 {
        DropCatalog::Delete { catalog_id, next: 0 }
    } else {
        after_deletions(catalog_id, (count - 1) as nat).next_state(None)
    }
}

/// No deletion finds its rows through a table whose rows of the catalog are deleted
/// before: the rows of tables go before the tables, and the maps that say what
/// belongs to the catalog go behind all that is found through them.
pub proof fn lemma_drop_order(i: int, j: int)
    requires
        0 <= i < j < drop_order().len(),
    ensures
        !finds_rows_through(drop_order()[j], drop_order()[i]),
        drop_order()[i] != drop_order()[j],
{
}

/// A catalog that is found is dropped from every table: the deletions run through
/// the whole order before the drop is committed.
pub proof fn lemma_drop_is_complete(catalog_id: i64, count: nat)
    ensures
        count < drop_order().len() ==> after_deletions(catalog_id, count) == (DropCatalog::Delete {
            catalog_id,
            next: count as usize,
        }),
        count == drop_order().len() ==> after_deletions(catalog_id, count) == (
        DropCatalog::Commit { dropped: true }),
    decreases count,
{
    if count > 0 {
        lemma_drop_is_complete(catalog_id, (count - 1) as nat);
    }
}

// ---------------------------------------------------------------------------
// Dropping a table
// ---------------------------------------------------------------------------

/// Where the drop of a table stands.
#[derive(Debug, Clone, PartialEq, Eq)]
pub enum DropTable {
    /// Look the catalog up and lock its row.
    LockCatalog,
    /// Look up the live table of that name.
    FindTable { catalog_id: i64 },
    /// Add the snapshot of the drop.
    AddSnapshot { catalog_id: i64, table_id: i64 },
    /// Record that the snapshot belongs to the catalog.
    MapSnapshot { catalog_id: i64, table_id: i64, snapshot: i64 },
    /// Read the highest schema version that the catalog had before the snapshot.
    ReadVersion { catalog_id: i64, table_id: i64, snapshot: i64 },
    /// Give the snapshot this schema version.
    SetVersion { table_id: i64, snapshot: i64, schema_version: i64 },
    /// End the live rows of the `next`th table that belong to the dropped one.
    Tombstone { table_id: i64, snapshot: i64, next: usize },
    /// Commit, and report whether there was such a table.
    Commit { dropped: bool },
    Refused(DuckLakeError),
}

/// What a statement of the drop of a table gave.
#[derive(Debug, Clone, Copy, PartialEq, Eq, Structural)]
pub enum DropReply {
    /// The value of the row that was asked for.
    Value(i64),
    /// No row.
    Nothing,
    /// The statement was carried out.
    Done,
}

/// The tables that hold rows of a table, in the order in which they are ended.
pub open spec fn tombstone_tables() -> Seq<Seq<char>> {
    seq!["ducklake_table"@, "ducklake_column"@, "ducklake_data_file"@, "ducklake_delete_file"@]
}

/// How many tables hold rows of a table.
pub const TOMBSTONE_TABLES: usize = 4;

pub const END_LIVE_ROWS: &'static str = " SET end_snapshot = $1
                 WHERE table_id = $2 AND end_snapshot IS NULL";

/// The statement that ends the live rows of the `next`th table; it takes the
/// snapshot of the drop and the id of the table.
pub fn tombstone_sql(next: usize) -> (out: String)
    requires
        next < TOMBSTONE_TABLES,
    ensures
        out@ == "UPDATE "@ + tombstone_tables()[next as int] + END_LIVE_ROWS@,
{
    let name: &str = if next == 0 {
        "ducklake_table"
    } else if next == 1 {
        "ducklake_column"
    } else if next == 2 {
        "ducklake_data_file"
    } else {
        "ducklake_delete_file"
    };
    let mut out = "UPDATE ".to_string();
    out.append(name);
    out.append(END_LIVE_ROWS);
    out
}

/// The schema version of a snapshot that changes the schema: one more than the
/// highest before it, which is `0` where there is none.
pub open spec fn version_after(previous: i64) -> int {
    previous + 1
}

impl MulticatalogManager {
    /// Starts the drop of a table.
    pub fn drop_table_in_catalog(catalog_name: &str, schema_name: &str, table_name: &str) -> (state:
        DropTable)
        ensures
            if is_blank(catalog_name@) {
                state matches DropTable::Refused(error) && is_config_error(error, EMPTY_CATALOG_NAME@)
            } else if is_blank(schema_name@) {
                state matches DropTable::Refused(error) && is_config_error(error, EMPTY_SCHEMA_NAME@)
            } else if is_blank(table_name@) {
                state matches DropTable::Refused(error) && is_config_error(error, EMPTY_TABLE_NAME@)
            } else {
                state is LockCatalog
            },
    {
        if text_is_blank(catalog_name) {
            return DropTable::Refused(DuckLakeError::InvalidConfig(EMPTY_CATALOG_NAME.to_string()));
        }
        if text_is_blank(schema_name) {
            return DropTable::Refused(DuckLakeError::InvalidConfig(EMPTY_SCHEMA_NAME.to_string()));
        }
        if text_is_blank(table_name) {
            return DropTable::Refused(DuckLakeError::InvalidConfig(EMPTY_TABLE_NAME.to_string()));
        }
        DropTable::LockCatalog
    }
}

impl DropTable {
    /// The next table to end rows of is one of those that there are.
    pub open spec fn wf(self) -> bool {
        self matches DropTable::Tombstone { next, .. } ==> next < TOMBSTONE_TABLES
    }

    /// Whether `reply` is one that the statement of this state can give.
    pub open spec fn admits(self, reply: DropReply) -> bool {
        match self {
            DropTable::LockCatalog | DropTable::FindTable { .. } => !(reply is Done),
            DropTable::AddSnapshot { .. } => reply is Value,
            DropTable::ReadVersion { .. } => reply matches DropReply::Value(previous) && previous
                < i64::MAX,
            _ => reply is Done,
        }
    }

    /// The state behind this one.
    pub open spec fn next_state(self, reply: DropReply) -> Self {
        match (self, reply) {
            (DropTable::LockCatalog, DropReply::Value(catalog_id)) => DropTable::FindTable {
                catalog_id,
            },
            (DropTable::FindTable { catalog_id }, DropReply::Value(table_id)) => {
                DropTable::AddSnapshot { catalog_id, table_id }
            },
            (
                DropTable::AddSnapshot { catalog_id, table_id },
                DropReply::Value(snapshot),
            ) => DropTable::MapSnapshot { catalog_id, table_id, snapshot },
            (DropTable::MapSnapshot { catalog_id, table_id, snapshot }, _) => {
                DropTable::ReadVersion { catalog_id, table_id, snapshot }
            },
            (
                DropTable::ReadVersion { catalog_id, table_id, snapshot },
                DropReply::Value(previous),
            ) => DropTable::SetVersion {
                table_id,
                snapshot,
                schema_version: version_after(previous) as i64,
            },
            (DropTable::SetVersion { table_id, snapshot, schema_version }, _) => {
                DropTable::Tombstone { table_id, snapshot, next: 0 }
            },
            (DropTable::Tombstone { table_id, snapshot, next }, _) => if next + 1
                < TOMBSTONE_TABLES {
                DropTable::Tombstone { table_id, snapshot, next: (next + 1) as usize }
            } else {
                DropTable::Commit { dropped: true }
            },
            (DropTable::LockCatalog, _) => DropTable::Commit { dropped: false },
            (DropTable::FindTable { .. }, _) => DropTable::Commit { dropped: false },
            _ => self,
        }
    }

    /// Goes on with what the statement gave.
    pub fn step(self, reply: DropReply) -> (next: Self)
        requires
            self.wf(),
            self.admits(reply),
        ensures
            next.wf(),
            next == self.next_state(reply),
    {
        match self {
            DropTable::LockCatalog => match reply {
                DropReply::Value(catalog_id) => DropTable::FindTable { catalog_id },
                _ => DropTable::Commit { dropped: false },
            },
            DropTable::FindTable { catalog_id } => match reply {
                DropReply::Value(table_id) => DropTable::AddSnapshot { catalog_id, table_id },
                _ => DropTable::Commit { dropped: false },
            },
            DropTable::AddSnapshot { catalog_id, table_id } => match reply {
                DropReply::Value(snapshot) => DropTable::MapSnapshot {
                    catalog_id,
                    table_id,
                    snapshot,
                },
                _ => DropTable::AddSnapshot { catalog_id, table_id },
            },
            DropTable::MapSnapshot { catalog_id, table_id, snapshot } => DropTable::ReadVersion {
                catalog_id,
                table_id,
                snapshot,
            },
            DropTable::ReadVersion { catalog_id, table_id, snapshot } => match reply {
                DropReply::Value(previous) => {
                    let schema_version: i64 = previous + 1;
                    DropTable::SetVersion { table_id, snapshot, schema_version }
                },
                _ => DropTable::ReadVersion { catalog_id, table_id, snapshot },
            },
            DropTable::SetVersion { table_id, snapshot, schema_version: _ } => {
                DropTable::Tombstone { table_id, snapshot, next: 0 }
            },
            DropTable::Tombstone { table_id, snapshot, next } => {
                if next + 1 < TOMBSTONE_TABLES {
                    DropTable::Tombstone { table_id, snapshot, next: next + 1 }
                } else {
                    DropTable::Commit { dropped: true }
                }
            },
            DropTable::Commit { dropped } => DropTable::Commit { dropped },
            DropTable::Refused(error) => DropTable::Refused(error),
        }
    }
}

/// The state after a sequence of replies.
pub open spec fn dropped_after(start: DropTable, replies: Seq<DropReply>) -> DropTable
    decreases replies.len(),
{
    if replies.len() == 0 {
        start
    } else {
        dropped_after(start, replies.drop_last()).next_state(replies.last())
    }
}

/// Where the catalog or the table is not found the drop changes nothing: it is
/// committed at once and reports that nothing was dropped.
pub proof fn lemma_unknown_table_changes_nothing(catalog_id: i64)
    ensures
        DropTable::LockCatalog.next_state(DropReply::Nothing) == (DropTable::Commit {
            dropped: false,
        }),
        DropTable::LockCatalog.next_state(DropReply::Value(catalog_id)).next_state(
            DropReply::Nothing,
        ) == (DropTable::Commit { dropped: false }),
{
}

/// A table that is found is dropped in full: one snapshot is added, put under the
/// catalog and given the schema version behind the highest one, and then the live
/// rows of the table end at that snapshot in every table that holds any, before the
/// drop is committed.
pub proof fn lemma_drop_of_table_is_complete(
    catalog_id: i64,
    table_id: i64,
    snapshot: i64,
    previous: i64,
    ended: nat,
)
    requires
        previous < i64::MAX,
        ended <= tombstone_tables().len(),
    ensures
        ({
            let found = DropTable::LockCatalog.next_state(DropReply::Value(catalog_id)).next_state(
                DropReply::Value(table_id),
            );
            let versioned = found.next_state(DropReply::Value(snapshot)).next_state(
                DropReply::Done,
            ).next_state(DropReply::Value(previous));
            let last = dropped_after(
                versioned.next_state(DropReply::Done),
                Seq::new(ended, |i: int| DropReply::Done),
            );
            &&& found == (DropTable::AddSnapshot { catalog_id, table_id })
            &&& versioned == (DropTable::SetVersion {
                table_id,
                snapshot,
                schema_version: version_after(previous) as i64,
            })
            &&& if ended < tombstone_tables().len() {
                last == (DropTable::Tombstone { table_id, snapshot, next: ended as usize })
            } else {
                last == (DropTable::Commit { dropped: true })
            }
        }),
    decreases ended,
{
    let replies = Seq::new(ended, |i: int| DropReply::Done);
    if ended > 0 {
        lemma_drop_of_table_is_complete(
            catalog_id,
            table_id,
            snapshot,
            previous,
            (ended - 1) as nat,
        );
        assert(replies.drop_last() =~= Seq::new((ended - 1) as nat, |i: int| DropReply::Done));
    }
}

/// The rows of a catalog are deleted from every table that holds some.
pub proof fn lemma_drop_reaches_every_table(table: CatalogTable)
    ensures
        exists|i: int| 0 <= i < drop_order().len() && #[trigger] drop_order()[i] == table,
        drop_order().len() == CATALOG_TABLES,
{
    let order = drop_order();
    assert(order[0] is DataFile && order[1] is DeleteFile && order[2] is Column && order[3]
        is SchemaVersions && order[4] is Table && order[5] is Schema && order[6] is Snapshot
        && order[7] is SchemaMap && order[8] is SnapshotMap && order[9] is Catalog);
}

/// A name that is neither found nor inserted, and not found again, is an error; a
/// creation that is over stays as it is.
pub proof fn lemma_lost_catalog(
    name: Seq<char>,
    id: Option<i64>,
    state: CreateCatalog,
    next: CreateCatalog,
)
    requires
        state.leads_to(name, id, next),
    ensures
        state is LookupAgain && id is None ==> next is Refused,
        state is Lookup && id is None ==> next is Insert,
        state is Insert && id is None ==> next is LookupAgain,
        state is Created || state is Refused ==> next == state,
        id matches Some(found) ==> (state is Lookup || state is Insert || state is LookupAgain
            ==> next == CreateCatalog::Created(found)),
{
}

/// A drop that takes effect raises the schema version by one, and ends the rows of the
/// table that was found, at the snapshot that was added.
pub proof fn lemma_drop_raises_version(
    catalog_id: i64,
    table_id: i64,
    snapshot: i64,
    previous: i64,
    version: i64,
)
    requires
        previous < i64::MAX,
    ensures
        (DropTable::ReadVersion { catalog_id, table_id, snapshot }).next_state(
            DropReply::Value(previous),
        ) matches DropTable::SetVersion { table_id: of, snapshot: at, schema_version }
            && schema_version - previous == 1 && of == table_id && at == snapshot,
        (DropTable::FindTable { catalog_id }).next_state(DropReply::Value(table_id))
            matches DropTable::AddSnapshot { catalog_id: of, table_id: found } && of == catalog_id
            && found == table_id,
        (DropTable::AddSnapshot { catalog_id, table_id }).next_state(DropReply::Value(snapshot))
            matches DropTable::MapSnapshot { catalog_id: of, table_id: found, snapshot: at } && of
            == catalog_id && found == table_id && at == snapshot,
        (DropTable::SetVersion { table_id, snapshot, schema_version: version }).next_state(
            DropReply::Done,
        ) matches DropTable::Tombstone { table_id: of, snapshot: at, next } && of == table_id && at
            == snapshot && next == 0,
{
}

/// The table of the catalog that holds rows of this kind.
pub open spec fn name_of(table: CatalogTable) -> Seq<char> {
    match table {
        CatalogTable::DataFile => "ducklake_data_file"@,
        CatalogTable::DeleteFile => "ducklake_delete_file"@,
        CatalogTable::Column => "ducklake_column"@,
        CatalogTable::SchemaVersions => "ducklake_schema_versions"@,
        CatalogTable::Table => "ducklake_table"@,
        CatalogTable::Schema => "ducklake_schema"@,
        CatalogTable::Snapshot => "ducklake_snapshot"@,
        CatalogTable::SchemaMap => "ducklake_catalog_schema_map"@,
        CatalogTable::SnapshotMap => "ducklake_catalog_snapshot_map"@,
        CatalogTable::Catalog => "ducklake_catalog"@,
    }
}

/// Whether text deletes the rows of a table that meet a condition.
pub open spec fn deletes_where(text: Seq<char>, name: Seq<char>, condition: Seq<char>) -> bool {
    text == "DELETE FROM "@ + name + " WHERE "@ + condition
}

/// Each deletion is from the table of its kind, and from nothing but what belongs to the
/// catalog whose id is bound.
pub proof fn lemma_deletions(table: CatalogTable)
    ensures
        exists|condition: Seq<char>| #[trigger]
            deletes_where(delete_text(table), name_of(table), condition)
                && crate::scan::contains_text(condition, "catalog_id = $1"@),
{
    reveal_strlit("DELETE FROM ");
    reveal_strlit(" WHERE ");
    reveal_strlit("catalog_id = $1");
    let id = "catalog_id = $1"@;
    if child_table_name(table) is Some {
        let condition = "table_id IN (\n                    SELECT t.table_id FROM ducklake_table t\n                    JOIN ducklake_catalog_schema_map m ON m.schema_id = t.schema_id\n                    WHERE m.catalog_id = $1\n                )"@;
        reveal_strlit(" WHERE table_id IN (\n                    SELECT t.table_id FROM ducklake_table t\n                    JOIN ducklake_catalog_schema_map m ON m.schema_id = t.schema_id\n                    WHERE m.catalog_id = $1\n                )");
        reveal_strlit("table_id IN (\n                    SELECT t.table_id FROM ducklake_table t\n                    JOIN ducklake_catalog_schema_map m ON m.schema_id = t.schema_id\n                    WHERE m.catalog_id = $1\n                )");
        assert(OF_CATALOG_TABLES@ =~= " WHERE "@ + condition);
        assert(condition.subrange(186, 201) =~= id);
        assert(crate::scan::occurs_at(condition, id, 186));
        assert("DELETE FROM "@ + name_of(table) + (" WHERE "@ + condition) =~= "DELETE FROM "@
            + name_of(table) + " WHERE "@ + condition);
        assert(name_of(table) == child_table_name(table)->0);
        assert(deletes_where(delete_text(table), name_of(table), condition));
    } else {
        reveal_strlit("ducklake_table");
        reveal_strlit("ducklake_schema");
        reveal_strlit("ducklake_snapshot");
        reveal_strlit("ducklake_catalog_schema_map");
        reveal_strlit("ducklake_catalog_snapshot_map");
        reveal_strlit("ducklake_catalog");
        match table {
            CatalogTable::Table => {
                let condition = "schema_id IN (\n                SELECT schema_id FROM ducklake_catalog_schema_map WHERE catalog_id = $1\n            )"@;
                reveal_strlit("DELETE FROM ducklake_table WHERE schema_id IN (\n                SELECT schema_id FROM ducklake_catalog_schema_map WHERE catalog_id = $1\n            )");
                reveal_strlit("schema_id IN (\n                SELECT schema_id FROM ducklake_catalog_schema_map WHERE catalog_id = $1\n            )");
                assert(condition.subrange(87, 102) =~= id);
                assert(crate::scan::occurs_at(condition, id, 87));
                assert("DELETE FROM "@ + "ducklake_table"@ + " WHERE "@ + condition =~= "DELETE FROM ducklake_table WHERE schema_id IN (\n                SELECT schema_id FROM ducklake_catalog_schema_map WHERE catalog_id = $1\n            )"@);
                assert(deletes_where(delete_text(table), name_of(table), condition));
            },
            CatalogTable::Schema => {
                let condition = "schema_id IN (\n                SELECT schema_id FROM ducklake_catalog_schema_map WHERE catalog_id = $1\n            )"@;
                reveal_strlit("DELETE FROM ducklake_schema WHERE schema_id IN (\n                SELECT schema_id FROM ducklake_catalog_schema_map WHERE catalog_id = $1\n            )");
                reveal_strlit("schema_id IN (\n                SELECT schema_id FROM ducklake_catalog_schema_map WHERE catalog_id = $1\n            )");
                assert(condition.subrange(87, 102) =~= id);
                assert(crate::scan::occurs_at(condition, id, 87));
                assert("DELETE FROM "@ + "ducklake_schema"@ + " WHERE "@ + condition =~= "DELETE FROM ducklake_schema WHERE schema_id IN (\n                SELECT schema_id FROM ducklake_catalog_schema_map WHERE catalog_id = $1\n            )"@);
                assert(deletes_where(delete_text(table), name_of(table), condition));
            },
            CatalogTable::Snapshot => {
                let condition = "snapshot_id IN (\n                SELECT snapshot_id FROM ducklake_catalog_snapshot_map WHERE catalog_id = $1\n            )"@;
                reveal_strlit("DELETE FROM ducklake_snapshot WHERE snapshot_id IN (\n                SELECT snapshot_id FROM ducklake_catalog_snapshot_map WHERE catalog_id = $1\n            )");
                reveal_strlit("snapshot_id IN (\n                SELECT snapshot_id FROM ducklake_catalog_snapshot_map WHERE catalog_id = $1\n            )");
                assert(condition.subrange(93, 108) =~= id);
                assert(crate::scan::occurs_at(condition, id, 93));
                assert("DELETE FROM "@ + "ducklake_snapshot"@ + " WHERE "@ + condition =~= "DELETE FROM ducklake_snapshot WHERE snapshot_id IN (\n                SELECT snapshot_id FROM ducklake_catalog_snapshot_map WHERE catalog_id = $1\n            )"@);
                assert(deletes_where(delete_text(table), name_of(table), condition));
            },
            CatalogTable::SchemaMap => {
                let condition = "catalog_id = $1"@;
                reveal_strlit("DELETE FROM ducklake_catalog_schema_map WHERE catalog_id = $1");
                reveal_strlit("catalog_id = $1");
                assert(condition.subrange(0, 15) =~= id);
                assert(crate::scan::occurs_at(condition, id, 0));
                assert("DELETE FROM "@ + "ducklake_catalog_schema_map"@ + " WHERE "@ + condition =~= "DELETE FROM ducklake_catalog_schema_map WHERE catalog_id = $1"@);
                assert(deletes_where(delete_text(table), name_of(table), condition));
            },
            CatalogTable::SnapshotMap => {
                let condition = "catalog_id = $1"@;
                reveal_strlit("DELETE FROM ducklake_catalog_snapshot_map WHERE catalog_id = $1");
                reveal_strlit("catalog_id = $1");
                assert(condition.subrange(0, 15) =~= id);
                assert(crate::scan::occurs_at(condition, id, 0));
                assert("DELETE FROM "@ + "ducklake_catalog_snapshot_map"@ + " WHERE "@ + condition =~= "DELETE FROM ducklake_catalog_snapshot_map WHERE catalog_id = $1"@);
                assert(deletes_where(delete_text(table), name_of(table), condition));
            },
            _ => {
                let condition = "catalog_id = $1"@;
                reveal_strlit("DELETE FROM ducklake_catalog WHERE catalog_id = $1");
                reveal_strlit("catalog_id = $1");
                assert(condition.subrange(0, 15) =~= id);
                assert(crate::scan::occurs_at(condition, id, 0));
                assert("DELETE FROM "@ + "ducklake_catalog"@ + " WHERE "@ + condition =~= "DELETE FROM ducklake_catalog WHERE catalog_id = $1"@);
                assert(deletes_where(delete_text(table), name_of(table), condition));
            },
        }
    }
}

} // verus!
