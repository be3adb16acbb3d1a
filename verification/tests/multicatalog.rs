use datafusion_ducklake::error::DuckLakeError;
use datafusion_ducklake::multicatalog::{
    delete_sql, tombstone_sql, CreateCatalog, DropCatalog, DropReply, DropTable,
    MulticatalogManager, CATALOG_TABLES, TOMBSTONE_TABLES,
};
use sqlx::{AssertSqlSafe, Connection, SqliteConnection};

const TWO_CATALOGS: &str = "
    CREATE TABLE ducklake_catalog (catalog_id BIGINT, catalog_name VARCHAR UNIQUE);
    CREATE TABLE ducklake_catalog_schema_map (catalog_id BIGINT, schema_id BIGINT);
    CREATE TABLE ducklake_catalog_snapshot_map (catalog_id BIGINT, snapshot_id BIGINT);
    CREATE TABLE ducklake_schema (schema_id BIGINT);
    CREATE TABLE ducklake_snapshot (snapshot_id BIGINT);
    CREATE TABLE ducklake_table (table_id BIGINT, schema_id BIGINT);
    CREATE TABLE ducklake_data_file (table_id BIGINT);
    CREATE TABLE ducklake_delete_file (table_id BIGINT);
    CREATE TABLE ducklake_column (table_id BIGINT);
    CREATE TABLE ducklake_schema_versions (table_id BIGINT);
    INSERT INTO ducklake_catalog VALUES (1, 'lake'), (2, 'pond');
    INSERT INTO ducklake_catalog_schema_map VALUES (1, 11), (2, 21);
    INSERT INTO ducklake_catalog_snapshot_map VALUES (1, 12), (2, 22);
    INSERT INTO ducklake_schema VALUES (11), (21);
    INSERT INTO ducklake_snapshot VALUES (12), (22);
    INSERT INTO ducklake_table VALUES (13, 11), (23, 21);
    INSERT INTO ducklake_data_file VALUES (13), (23);
    INSERT INTO ducklake_delete_file VALUES (13), (23);
    INSERT INTO ducklake_column VALUES (13), (23);
    INSERT INTO ducklake_schema_versions VALUES (13), (23);";

/// Runs the drop of a catalog, and tells whether there was one.
async fn drop_catalog(connection: &mut SqliteConnection, name: &str) -> bool {
    let mut state = MulticatalogManager::drop_catalog(name);
    loop {
        state = match state {
            DropCatalog::Lock => {
                let id: Option<i64> = sqlx::query_scalar(
                    "SELECT catalog_id FROM ducklake_catalog WHERE catalog_name = $1",
                )
                .bind(name)
                .fetch_optional(&mut *connection)
                .await
                .expect("a lookup");
                DropCatalog::Lock.step(id)
            }
            DropCatalog::Delete { catalog_id, next } => {
                sqlx::query(AssertSqlSafe(delete_sql(next)))
                    .bind(catalog_id)
                    .execute(&mut *connection)
                    .await
                    .expect("a deletion");
                DropCatalog::Delete { catalog_id, next }.step(None)
            }
            DropCatalog::Commit { dropped } => return dropped,
            DropCatalog::Refused(error) => panic!("{error:?}"),
        };
    }
}

/// How many rows each table has.
async fn row_counts(connection: &mut SqliteConnection) -> Vec<i64> {
    let mut counts = Vec::new();
    for table in [
        "ducklake_catalog",
        "ducklake_catalog_schema_map",
        "ducklake_catalog_snapshot_map",
        "ducklake_schema",
        "ducklake_snapshot",
        "ducklake_table",
        "ducklake_data_file",
        "ducklake_delete_file",
        "ducklake_column",
        "ducklake_schema_versions",
    ] {
        let sql = format!("SELECT COUNT(*) FROM {table}");
        let count: i64 = sqlx::query_scalar(AssertSqlSafe(sql))
            .fetch_one(&mut *connection)
            .await
            .expect("a count");
        counts.push(count);
    }
    counts
}

/// A drop takes every row of its catalog and none of another, and a second drop finds
/// nothing and changes nothing.
#[test]
fn a_catalog_drops_once_and_alone() {
    let runtime = tokio::runtime::Builder::new_current_thread().build().expect("a runtime");
    runtime.block_on(async {
        let mut connection =
            SqliteConnection::connect("sqlite::memory:").await.expect("a database");
        sqlx::raw_sql(TWO_CATALOGS).execute(&mut connection).await.expect("two catalogs");
        assert!(!drop_catalog(&mut connection, "sea").await);
        assert_eq!(row_counts(&mut connection).await, vec![2; 10]);
        assert!(drop_catalog(&mut connection, "lake").await);
        assert_eq!(row_counts(&mut connection).await, vec![1; 10]);
        assert!(!drop_catalog(&mut connection, "lake").await);
        assert_eq!(row_counts(&mut connection).await, vec![1; 10]);
        assert!(drop_catalog(&mut connection, "pond").await);
        assert_eq!(row_counts(&mut connection).await, vec![0; 10]);
    });
}

fn config(message: &str) -> DuckLakeError {
    DuckLakeError::InvalidConfig(message.to_string())
}

#[test]
fn a_catalog_is_created_once() {
    let state = MulticatalogManager::create_catalog("lake");
    assert_eq!(state, CreateCatalog::Lookup);
    assert_eq!(state.clone().step("lake", Some(7)), CreateCatalog::Created(7));
    let inserted = state.step("lake", None);
    assert_eq!(inserted, CreateCatalog::Insert);
    assert_eq!(inserted.clone().step("lake", Some(8)), CreateCatalog::Created(8));
    let again = inserted.step("lake", None);
    assert_eq!(again, CreateCatalog::LookupAgain);
    assert_eq!(again.clone().step("lake", Some(9)), CreateCatalog::Created(9));
    match again.step("lake", None) {
        CreateCatalog::Refused(DuckLakeError::Internal(message)) => {
            assert!(message.starts_with("Catalog 'lake' insert conflicted but lookup found nothing"))
        }
        other => panic!("{other:?}"),
    }
    assert_eq!(
        MulticatalogManager::create_catalog("  "),
        CreateCatalog::Refused(config("Catalog name cannot be empty"))
    );
}

#[test]
fn a_catalog_is_dropped_from_its_files_to_its_name() {
    let mut state = MulticatalogManager::drop_catalog("lake").step(Some(7));
    let mut statements: Vec<String> = Vec::new();
    while let DropCatalog::Delete { catalog_id, next } = state {
        assert_eq!(catalog_id, 7);
        statements.push(delete_sql(next));
        state = DropCatalog::Delete { catalog_id, next }.step(None);
    }
    assert_eq!(state, DropCatalog::Commit { dropped: true });
    assert_eq!(statements.len(), CATALOG_TABLES);
    assert!(statements[0].starts_with("DELETE FROM ducklake_data_file"));
    assert_eq!(statements[9], "DELETE FROM ducklake_catalog WHERE catalog_id = $1");

    assert_eq!(
        MulticatalogManager::drop_catalog("lake").step(None),
        DropCatalog::Commit { dropped: false }
    );
    assert_eq!(
        MulticatalogManager::drop_catalog(""),
        DropCatalog::Refused(config("Catalog name cannot be empty"))
    );
}

#[test]
fn a_dropped_table_is_ended_at_a_new_snapshot() {
    let mut state = MulticatalogManager::drop_table_in_catalog("lake", "main", "events")
        .step(DropReply::Value(1))
        .step(DropReply::Value(2))
        .step(DropReply::Value(3));
    assert_eq!(state, DropTable::MapSnapshot { catalog_id: 1, table_id: 2, snapshot: 3 });
    state = state.step(DropReply::Done);
    assert_eq!(state, DropTable::ReadVersion { catalog_id: 1, table_id: 2, snapshot: 3 });
    state = state.step(DropReply::Value(4));
    let mut ended: Vec<String> = Vec::new();
    state = state.step(DropReply::Done);
    while let DropTable::Tombstone { table_id, snapshot, next } = state {
        assert_eq!((table_id, snapshot), (2, 3));
        ended.push(tombstone_sql(next));
        state = DropTable::Tombstone { table_id, snapshot, next }.step(DropReply::Done);
    }
    assert_eq!(state, DropTable::Commit { dropped: true });
    assert_eq!(ended.len(), TOMBSTONE_TABLES);
    assert!(ended.iter().all(|sql| sql.starts_with("UPDATE ducklake_")));
}

#[test]
fn an_unknown_table_changes_nothing() {
    let start = || MulticatalogManager::drop_table_in_catalog("lake", "main", "events");
    assert_eq!(start().step(DropReply::Nothing), DropTable::Commit { dropped: false });
    assert_eq!(
        start().step(DropReply::Value(1)).step(DropReply::Nothing),
        DropTable::Commit { dropped: false }
    );
    let named = MulticatalogManager::drop_table_in_catalog;
    assert_eq!(named("", "main", "events"), DropTable::Refused(config("Catalog name cannot be empty")));
    assert_eq!(named("lake", " ", "events"), DropTable::Refused(config("Schema name cannot be empty")));
    assert_eq!(named("lake", "main", ""), DropTable::Refused(config("Table name cannot be empty")));
}
