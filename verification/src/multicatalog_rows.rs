//! What the statements of `multicatalog` do to the rows of a metadata database.
//!
//! The database is modelled by the rows that say what belongs to which catalog. Each
//! statement is given its effect on them, and the laws follow a whole operation,
//! statement by statement, with no other writer in between.

use vstd::prelude::*;

use crate::multicatalog::{
    after_deletions, drop_order, lemma_drop_is_complete, CatalogTable, CreateCatalog, DropCatalog,
    DropReply, DropTable,
};

verus! {

// ---------------------------------------------------------------------------
// Catalogs and what belongs to them
// ---------------------------------------------------------------------------

/// The rows of a metadata database.
pub struct MetadataRows {
    /// Ids and names of catalogs.
    pub catalogs: Set<(i64, Seq<char>)>,
    /// Which catalog has which schema.
    pub schema_map: Set<(i64, i64)>,
    /// Which catalog has which snapshot.
    pub snapshot_map: Set<(i64, i64)>,
    pub schemas: Set<i64>,
    pub snapshots: Set<i64>,
    /// Ids of tables, each with the id of its schema.
    pub tables: Set<(i64, i64)>,
    /// Rows that name a table, each with the id of the table in front.
    pub data_files: Set<(i64, int)>,
    pub delete_files: Set<(i64, int)>,
    pub columns: Set<(i64, int)>,
    pub schema_versions: Set<(i64, int)>,
}

impl MetadataRows {
    /// Whether a table is in a schema of a catalog.
    pub open spec fn has_table(self, catalog_id: i64, table_id: i64) -> bool {
        exists|schema_id: i64| #[trigger]
            self.tables.contains((table_id, schema_id)) && self.schema_map.contains(
                (catalog_id, schema_id),
            )
    }

    /// No two catalogs have one name.
    pub open spec fn names_are_unique(self) -> bool {
        forall|a: i64, b: i64, name: Seq<char>| #[trigger]
            self.catalogs.contains((a, name)) && #[trigger] self.catalogs.contains((b, name)) ==> a
                == b
    }

    /// No two catalogs share a schema, a snapshot or a table.
    pub open spec fn catalogs_are_apart(self) -> bool {
        &&& forall|a: i64, b: i64, schema_id: i64| #[trigger]
            self.schema_map.contains((a, schema_id)) && #[trigger] self.schema_map.contains(
                (b, schema_id),
            ) ==> a == b
        &&& forall|a: i64, b: i64, snapshot_id: i64| #[trigger]
            self.snapshot_map.contains((a, snapshot_id)) && #[trigger] self.snapshot_map.contains(
                (b, snapshot_id),
            ) ==> a == b
        &&& forall|a: i64, b: i64, table_id: i64| #[trigger]
            self.has_table(a, table_id) && #[trigger] self.has_table(b, table_id) ==> a == b
    }

    /// The id of the catalog of that name, if there is one.
    pub open spec fn find_catalog(self, name: Seq<char>) -> Option<i64> {
        if exists|id: i64| #[trigger] self.catalogs.contains((id, name)) {
            Some(choose|id: i64| #[trigger] self.catalogs.contains((id, name)))
        } else {
            None
        }
    }

    /// The rows after the statement that deletes those of a catalog from `table`.
    pub open spec fn without(self, table: CatalogTable, catalog_id: i64) -> Self {
        match table {
            CatalogTable::DataFile => MetadataRows {
                data_files: self.data_files.filter(
                    |row: (i64, int)| !self.has_table(catalog_id, row.0),
                ),
                ..self
            },
            CatalogTable::DeleteFile => MetadataRows {
                delete_files: self.delete_files.filter(
                    |row: (i64, int)| !self.has_table(catalog_id, row.0),
                ),
                ..self
            },
            CatalogTable::Column => MetadataRows {
                columns: self.columns.filter(
                    |row: (i64, int)| !self.has_table(catalog_id, row.0),
                ),
                ..self
            },
            CatalogTable::SchemaVersions => MetadataRows {
                schema_versions: self.schema_versions.filter(
                    |row: (i64, int)| !self.has_table(catalog_id, row.0),
                ),
                ..self
            },
            CatalogTable::Table => MetadataRows {
                tables: self.tables.filter(
                    |row: (i64, i64)| !self.schema_map.contains((catalog_id, row.1)),
                ),
                ..self
            },
            CatalogTable::Schema => MetadataRows {
                schemas: self.schemas.filter(
                    |schema_id: i64| !self.schema_map.contains((catalog_id, schema_id)),
                ),
                ..self
            },
            CatalogTable::Snapshot => MetadataRows {
                snapshots: self.snapshots.filter(
                    |snapshot_id: i64| !self.snapshot_map.contains((catalog_id, snapshot_id)),
                ),
                ..self
            },
            CatalogTable::SchemaMap => MetadataRows {
                schema_map: self.schema_map.filter(|row: (i64, i64)| row.0 != catalog_id),
                ..self
            },
            CatalogTable::SnapshotMap => MetadataRows {
                snapshot_map: self.snapshot_map.filter(|row: (i64, i64)| row.0 != catalog_id),
                ..self
            },
            CatalogTable::Catalog => MetadataRows {
                catalogs: self.catalogs.filter(|row: (i64, Seq<char>)| row.0 != catalog_id),
                ..self
            },
        }
    }

    /// The rows after the first `count` deletions of a drop.
    pub open spec fn after_deletions(self, catalog_id: i64, count: nat) -> Self
        decreases count,
    {
        if count == 0 {
            self
        } else {
            self.after_deletions(catalog_id, (count - 1) as nat).without(
                drop_order()[count - 1],
                catalog_id,
            )
        }
    }
}

// ---------------------------------------------------------------------------
// Dropping a catalog
// ---------------------------------------------------------------------------

/// What the statement of a state does to the rows, and the state behind it.
pub open spec fn drop_step(rows: MetadataRows, name: Seq<char>, state: DropCatalog) -> (
    MetadataRows,
    DropCatalog,
) {
    match state {
        DropCatalog::Lock => (rows, state.next_state(rows.find_catalog(name))),
        DropCatalog::Delete { catalog_id, next } => (
            rows.without(drop_order()[next as int], catalog_id),
            state.next_state(None),
        ),
        _ => (rows, state),
    }
}

/// The rows and the state after some statements of a drop.
pub open spec fn drop_run(rows: MetadataRows, name: Seq<char>, steps: nat) -> (
    MetadataRows,
    DropCatalog,
)
    decreases steps,
{
    if steps == 0 {
        (rows, DropCatalog::Lock)
    } else {
        let (now, state) = drop_run(rows, name, (steps - 1) as nat);
        drop_step(now, name, state)
    }
}

/// The rows and the state that the drop of a catalog ends in: behind the lookup and as
/// many deletions as there are.
pub open spec fn dropped(rows: MetadataRows, name: Seq<char>) -> (MetadataRows, DropCatalog) {
    drop_run(rows, name, drop_order().len() + 1)
}

/// Whether a catalog has the same rows before and after.
pub open spec fn keeps_catalog(
    before: MetadataRows,
    after: MetadataRows,
    catalog_id: i64,
) -> bool {
    &&& forall|name: Seq<char>| #[trigger]
        after.catalogs.contains((catalog_id, name)) == before.catalogs.contains((catalog_id, name))
    &&& forall|schema_id: i64| #[trigger]
        after.schema_map.contains((catalog_id, schema_id)) == before.schema_map.contains(
            (catalog_id, schema_id),
        )
    &&& forall|snapshot_id: i64| #[trigger]
        after.snapshot_map.contains((catalog_id, snapshot_id)) == before.snapshot_map.contains(
            (catalog_id, snapshot_id),
        )
    &&& forall|schema_id: i64|
        before.schema_map.contains((catalog_id, schema_id)) ==> #[trigger] after.schemas.contains(
            schema_id,
        ) == before.schemas.contains(schema_id)
    &&& forall|snapshot_id: i64|
        before.snapshot_map.contains((catalog_id, snapshot_id))
            ==> #[trigger] after.snapshots.contains(snapshot_id) == before.snapshots.contains(
            snapshot_id,
        )
    &&& forall|table_id: i64, schema_id: i64|
        before.schema_map.contains((catalog_id, schema_id)) ==> #[trigger] after.tables.contains(
            (table_id, schema_id),
        ) == before.tables.contains((table_id, schema_id))
    &&& forall|table_id: i64, row: int|
        before.has_table(catalog_id, table_id) ==> #[trigger] after.data_files.contains(
            (table_id, row),
        ) == before.data_files.contains((table_id, row))
    &&& forall|table_id: i64, row: int|
        before.has_table(catalog_id, table_id) ==> #[trigger] after.delete_files.contains(
            (table_id, row),
        ) == before.delete_files.contains((table_id, row))
    &&& forall|table_id: i64, row: int|
        before.has_table(catalog_id, table_id) ==> #[trigger] after.columns.contains(
            (table_id, row),
        ) == before.columns.contains((table_id, row))
    &&& forall|table_id: i64, row: int|
        before.has_table(catalog_id, table_id) ==> #[trigger] after.schema_versions.contains(
            (table_id, row),
        ) == before.schema_versions.contains((table_id, row))
}

/// Whether nothing is left of what a catalog had before.
pub open spec fn loses_catalog(
    before: MetadataRows,
    after: MetadataRows,
    catalog_id: i64,
) -> bool {
    &&& forall|name: Seq<char>| !#[trigger] after.catalogs.contains((catalog_id, name))
    &&& forall|schema_id: i64| !#[trigger] after.schema_map.contains((catalog_id, schema_id))
    &&& forall|snapshot_id: i64| !#[trigger] after.snapshot_map.contains((catalog_id, snapshot_id))
    &&& forall|schema_id: i64|
        before.schema_map.contains((catalog_id, schema_id)) ==> !#[trigger] after.schemas.contains(
            schema_id,
        )
    &&& forall|snapshot_id: i64|
        before.snapshot_map.contains((catalog_id, snapshot_id))
            ==> !#[trigger] after.snapshots.contains(snapshot_id)
    &&& forall|table_id: i64, schema_id: i64|
        before.schema_map.contains((catalog_id, schema_id)) ==> !#[trigger] after.tables.contains(
            (table_id, schema_id),
        )
    &&& forall|table_id: i64, row: int|
        before.has_table(catalog_id, table_id) ==> !#[trigger] after.data_files.contains(
            (table_id, row),
        )
    &&& forall|table_id: i64, row: int|
        before.has_table(catalog_id, table_id) ==> !#[trigger] after.delete_files.contains(
            (table_id, row),
        )
    &&& forall|table_id: i64, row: int|
        before.has_table(catalog_id, table_id) ==> !#[trigger] after.columns.contains(
            (table_id, row),
        )
    &&& forall|table_id: i64, row: int|
        before.has_table(catalog_id, table_id) ==> !#[trigger] after.schema_versions.contains(
            (table_id, row),
        )
}

/// A drop that finds its catalog goes through the deletions one by one.
proof fn lemma_drop_run(rows: MetadataRows, name: Seq<char>, catalog_id: i64, count: nat)
    requires
        rows.find_catalog(name) == Some(catalog_id),
        count <= drop_order().len(),
    ensures
        drop_run(rows, name, count + 1) == (
            rows.after_deletions(catalog_id, count),
            after_deletions(catalog_id, count),
        ),
    decreases count,
{
    reveal_with_fuel(drop_run, 2);
    if count > 0 {
        let before = (count - 1) as nat;
        lemma_drop_run(rows, name, catalog_id, before);
        lemma_drop_is_complete(catalog_id, before);
    }
}

/// A drop that finds no catalog stops at once.
proof fn lemma_drop_of_nothing(rows: MetadataRows, name: Seq<char>, steps: nat)
    requires
        rows.find_catalog(name) is None,
    ensures
        drop_run(rows, name, steps + 1) == (rows, DropCatalog::Commit { dropped: false }),
    decreases steps,
{
    reveal_with_fuel(drop_run, 2);
    if steps > 0 {
        lemma_drop_of_nothing(rows, name, (steps - 1) as nat);
    }
}

/// What the deletions of a drop leave, table by table: none of them changes what a
/// later one finds its rows through.
proof fn lemma_deletions(rows: MetadataRows, catalog_id: i64)
    ensures
        ({
            let after = rows.after_deletions(catalog_id, drop_order().len());
            let spared = |row: (i64, int)| !rows.has_table(catalog_id, row.0);
            &&& after.data_files == rows.data_files.filter(spared)
            &&& after.delete_files == rows.delete_files.filter(spared)
            &&& after.columns == rows.columns.filter(spared)
            &&& after.schema_versions == rows.schema_versions.filter(spared)
            &&& after.tables == rows.tables.filter(
                |row: (i64, i64)| !rows.schema_map.contains((catalog_id, row.1)),
            )
            &&& after.schemas == rows.schemas.filter(
                |schema_id: i64| !rows.schema_map.contains((catalog_id, schema_id)),
            )
            &&& after.snapshots == rows.snapshots.filter(
                |snapshot_id: i64| !rows.snapshot_map.contains((catalog_id, snapshot_id)),
            )
            &&& after.schema_map == rows.schema_map.filter(|row: (i64, i64)| row.0 != catalog_id)
            &&& after.snapshot_map == rows.snapshot_map.filter(
                |row: (i64, i64)| row.0 != catalog_id,
            )
            &&& after.catalogs == rows.catalogs.filter(
                |row: (i64, Seq<char>)| row.0 != catalog_id,
            )
        }),
{
    let one = rows.after_deletions(catalog_id, 1);
    let two = rows.after_deletions(catalog_id, 2);
    let three = rows.after_deletions(catalog_id, 3);
    let four = rows.after_deletions(catalog_id, 4);
    let five = rows.after_deletions(catalog_id, 5);
    let six = rows.after_deletions(catalog_id, 6);
    let seven = rows.after_deletions(catalog_id, 7);
    let eight = rows.after_deletions(catalog_id, 8);
    let nine = rows.after_deletions(catalog_id, 9);
    let after = rows.after_deletions(catalog_id, 10);
    let spared = |row: (i64, int)| !rows.has_table(catalog_id, row.0);
    reveal_with_fuel(MetadataRows::after_deletions, 2);
    assert(one == rows.without(CatalogTable::DataFile, catalog_id));
    assert(two == one.without(CatalogTable::DeleteFile, catalog_id));
    assert(three == two.without(CatalogTable::Column, catalog_id));
    assert(four == three.without(CatalogTable::SchemaVersions, catalog_id));
    assert(five == four.without(CatalogTable::Table, catalog_id));
    assert(six == five.without(CatalogTable::Schema, catalog_id));
    assert(seven == six.without(CatalogTable::Snapshot, catalog_id));
    assert(eight == seven.without(CatalogTable::SchemaMap, catalog_id));
    assert(nine == eight.without(CatalogTable::SnapshotMap, catalog_id));
    assert(after == nine.without(CatalogTable::Catalog, catalog_id));
    lemma_same_tables(rows, one, catalog_id);
    lemma_same_tables(rows, two, catalog_id);
    lemma_same_tables(rows, three, catalog_id);
    assert(one.data_files =~= rows.data_files.filter(spared));
    assert(two.delete_files =~= rows.delete_files.filter(spared));
    assert(three.columns =~= rows.columns.filter(spared));
    assert(four.schema_versions =~= rows.schema_versions.filter(spared));
}

proof fn lemma_same_tables(before: MetadataRows, after: MetadataRows, catalog_id: i64)
    requires
        after.tables == before.tables,
        after.schema_map == before.schema_map,
    ensures
        forall|table_id: i64| #[trigger]
            after.has_table(catalog_id, table_id) == before.has_table(catalog_id, table_id),
{
}

/// The drop of a catalog reports whether there was one of that name, and takes every
/// row that it had. Every other catalog keeps all of its rows. Behind the drop there is
/// no catalog of that name, and a second drop changes nothing and reports that there
/// was none.
pub proof fn lemma_drop_catalog(rows: MetadataRows, name: Seq<char>)
    requires
        rows.names_are_unique(),
        rows.catalogs_are_apart(),
    ensures
        ({
            let (after, end) = dropped(rows, name);
            &&& end == (DropCatalog::Commit { dropped: rows.find_catalog(name) is Some })
            &&& rows.find_catalog(name) is None ==> after == rows
            &&& rows.find_catalog(name) matches Some(catalog_id) ==> loses_catalog(
                rows,
                after,
                catalog_id,
            )
            &&& forall|other: i64|
                rows.find_catalog(name) != Some(other) ==> #[trigger] keeps_catalog(
                    rows,
                    after,
                    other,
                )
            &&& after.find_catalog(name) is None
            &&& dropped(after, name) == (after, DropCatalog::Commit { dropped: false })
        }),
{
    let (after, end) = dropped(rows, name);
    match rows.find_catalog(name) {
        None => {
            lemma_drop_of_nothing(rows, name, drop_order().len());
        },
        Some(catalog_id) => {
            assert(rows.catalogs.contains((catalog_id, name)));
            lemma_drop_run(rows, name, catalog_id, drop_order().len());
            lemma_drop_is_complete(catalog_id, drop_order().len());
            lemma_deletions(rows, catalog_id);
            assert(after.find_catalog(name) is None) by {
                assert forall|id: i64| !#[trigger] after.catalogs.contains((id, name)) by {
                    if rows.catalogs.contains((id, name)) {
                        assert(id == catalog_id);
                    }
                }
            }
            assert(loses_catalog(rows, after, catalog_id));
            assert forall|other: i64| other != catalog_id implies #[trigger] keeps_catalog(
                rows,
                after,
                other,
            ) by {
                lemma_other_catalog(rows, after, catalog_id, other);
            }
            lemma_drop_of_nothing(after, name, drop_order().len());
        },
    }
}

/// What the deletions of a drop leave to another catalog.
proof fn lemma_other_catalog(
    rows: MetadataRows,
    after: MetadataRows,
    catalog_id: i64,
    other: i64,
)
    requires
        rows.catalogs_are_apart(),
        after == rows.after_deletions(catalog_id, drop_order().len()),
        other != catalog_id,
    ensures
        keeps_catalog(rows, after, other),
{
    lemma_deletions(rows, catalog_id);
    assert forall|table_id: i64| rows.has_table(other, table_id) implies !#[trigger] rows.has_table(
        catalog_id,
        table_id,
    ) by {}
    assert forall|schema_id: i64|
        rows.schema_map.contains((other, schema_id)) implies !#[trigger] rows.schema_map.contains(
        (catalog_id, schema_id),
    ) by {}
    assert forall|snapshot_id: i64|
        rows.snapshot_map.contains(
            (other, snapshot_id),
        ) implies !#[trigger] rows.snapshot_map.contains((catalog_id, snapshot_id)) by {}
}

// ---------------------------------------------------------------------------
// Creating a catalog
// ---------------------------------------------------------------------------

/// The rows after a catalog of that name was inserted under an id.
pub open spec fn with_catalog(rows: MetadataRows, id: i64, name: Seq<char>) -> MetadataRows {
    MetadataRows { catalogs: rows.catalogs.insert((id, name)), ..rows }
}

/// A catalog that was created is found under its id, and to create it again gives that
/// id at the first lookup.
pub proof fn lemma_created_catalog_is_found(
    rows: MetadataRows,
    id: i64,
    name: Seq<char>,
    next: CreateCatalog,
)
    requires
        rows.find_catalog(name) is None,
        CreateCatalog::Lookup.leads_to(name, with_catalog(rows, id, name).find_catalog(name), next),
    ensures
        with_catalog(rows, id, name).find_catalog(name) == Some(id),
        next == CreateCatalog::Created(id),
{
    let after = with_catalog(rows, id, name);
    assert(after.catalogs.contains((id, name)));
    let found = after.find_catalog(name)->0;
    assert(after.catalogs.contains((found, name)));
    if found != id {
        assert(rows.catalogs.contains((found, name)));
    }
}

// ---------------------------------------------------------------------------
// Dropping a table
// ---------------------------------------------------------------------------

/// A row of a table, with where it is found: the catalog and the live schema that it is
/// in, if any.
pub struct TableRow {
    pub table_id: i64,
    pub table_name: Seq<char>,
    pub home: Option<(i64, Seq<char>)>,
    pub begin_snapshot: i64,
    pub end_snapshot: Option<i64>,
}

/// Whether a row is the live one of that table.
pub open spec fn is_live_table(
    row: TableRow,
    catalog_id: i64,
    schema_name: Seq<char>,
    table_name: Seq<char>,
) -> bool {
    &&& row.home == Some((catalog_id, schema_name))
    &&& row.table_name == table_name
    &&& row.end_snapshot is None
}

/// The reply to the lookup of a live table.
pub open spec fn find_table(
    rows: Seq<TableRow>,
    catalog_id: i64,
    schema_name: Seq<char>,
    table_name: Seq<char>,
) -> DropReply {
    if exists|i: int|
        0 <= i < rows.len() && is_live_table(
            #[trigger] rows[i],
            catalog_id,
            schema_name,
            table_name,
        ) {
        DropReply::Value(
            rows[choose|i: int|
                0 <= i < rows.len() && is_live_table(
                    #[trigger] rows[i],
                    catalog_id,
                    schema_name,
                    table_name,
                )].table_id,
        )
    } else {
        DropReply::Nothing
    }
}

/// A row after the live ones of a table were ended at a snapshot.
pub open spec fn ended(row: TableRow, table_id: i64, snapshot: i64) -> TableRow {
    if row.table_id == table_id && row.end_snapshot is None {
        TableRow { end_snapshot: Some(snapshot), ..row }
    } else {
        row
    }
}

/// The rows after the live ones of a table were ended at a snapshot.
pub open spec fn all_ended(rows: Seq<TableRow>, table_id: i64, snapshot: i64) -> Seq<TableRow> {
    rows.map_values(|row: TableRow| ended(row, table_id, snapshot))
}

/// Whether a row is seen at a snapshot.
pub open spec fn is_seen_at(row: TableRow, snapshot: i64) -> bool {
    &&& row.begin_snapshot <= snapshot
    &&& row.end_snapshot matches Some(end) ==> snapshot < end
}

/// Rows that were ended at a snapshot are seen by every earlier one as before, and live
/// rows of the table by no other one; rows of other tables stay as they are.
pub proof fn lemma_ended_rows(row: TableRow, table_id: i64, snapshot: i64, at: i64)
    ensures
        at < snapshot ==> is_seen_at(ended(row, table_id, snapshot), at) == is_seen_at(row, at),
        at >= snapshot && row.table_id == table_id && row.end_snapshot is None ==> !is_seen_at(
            ended(row, table_id, snapshot),
            at,
        ),
        row.table_id != table_id ==> ended(row, table_id, snapshot) == row,
{
}

/// Where each live name stands for one table, a table that was dropped is not found
/// again: a second drop adds no snapshot, ends no row and reports that nothing was
/// dropped.
pub proof fn lemma_table_drops_once(
    rows: Seq<TableRow>,
    catalog_id: i64,
    schema_name: Seq<char>,
    table_name: Seq<char>,
    table_id: i64,
    snapshot: i64,
)
    requires
        forall|i: int, j: int|
            0 <= i < rows.len() && 0 <= j < rows.len() && is_live_table(
                #[trigger] rows[i],
                catalog_id,
                schema_name,
                table_name,
            ) && is_live_table(#[trigger] rows[j], catalog_id, schema_name, table_name)
                ==> rows[i].table_id == rows[j].table_id,
        find_table(rows, catalog_id, schema_name, table_name) == DropReply::Value(table_id),
    ensures
        ({
            let after = all_ended(rows, table_id, snapshot);
            let reply = find_table(after, catalog_id, schema_name, table_name);
            &&& reply == DropReply::Nothing
            &&& DropTable::LockCatalog.next_state(DropReply::Value(catalog_id)).next_state(reply)
                == (DropTable::Commit { dropped: false })
        }),
{
    let after = all_ended(rows, table_id, snapshot);
    let k = choose|i: int|
        0 <= i < rows.len() && is_live_table(
            #[trigger] rows[i],
            catalog_id,
            schema_name,
            table_name,
        );
    assert(rows[k].table_id == table_id);
    assert forall|i: int| 0 <= i < after.len() implies !is_live_table(
        #[trigger] after[i],
        catalog_id,
        schema_name,
        table_name,
    ) by {
        if is_live_table(rows[i], catalog_id, schema_name, table_name) {
            assert(rows[i].table_id == rows[k].table_id);
        }
    }
}

} // verus!
