//! What the SQL of a narrowed listing does to the files of a table.
//!
//! A listing is narrowed by selections of statistics that are joined to it. Here a
//! selection and a join are given a spelling, up to the layout of the text, and a meaning:
//! the rows that they give. The laws tie the SQL of each database to them.

use vstd::prelude::*;

use crate::metadata::{DuckLakeTableFile, RenderedColumnFilter};
use crate::scan::is_blank;
use crate::text::{int_text, joined, views};

verus! {

/// A row of the statistics of files.
pub struct StatsRow {
    pub data_file_id: int,
    pub column_id: int,
    pub table_id: int,
}

/// A selection of the statistics of one column.
pub struct StatsSelection {
    pub alias: Seq<char>,
    pub stats: Seq<Seq<char>>,
    pub column_id: int,
    pub table_id: int,
}

/// Whether a selection has a row.
pub open spec fn selects_row(selection: StatsSelection, row: StatsRow) -> bool {
    row.column_id == selection.column_id && row.table_id == selection.table_id
}

/// What a file is joined with: each row of its own that the selection has, and nothing
/// once where there is none. A file is there in any case.
pub open spec fn left_joined(
    rows: Seq<StatsRow>,
    selection: StatsSelection,
    file: int,
) -> Seq<Option<StatsRow>> {
    let own = rows.filter(
        |row: StatsRow| selects_row(selection, row) && row.data_file_id == file,
    );
    if own.len() == 0 {
        seq![None]
    } else {
        own.map_values(|row: StatsRow| Some(row))
    }
}

/// How a selection is spelled, with that layout.
pub open spec fn selection_text(
    selection: StatsSelection,
    start: Seq<char>,
    line: Seq<char>,
    end: Seq<char>,
) -> Seq<char> {
    selection.alias + " AS ("@ + start + "SELECT data_file_id, "@ + joined(selection.stats, ", "@)
        + line + "FROM ducklake_file_column_stats"@ + line + "WHERE column_id = "@ + int_text(
        selection.column_id,
    ) + " AND table_id = "@ + int_text(selection.table_id) + end + ")"@
}

/// How a join is spelled that keeps every file, with that layout.
pub open spec fn left_join_text(alias: Seq<char>, line: Seq<char>) -> Seq<char> {
    line + "LEFT JOIN "@ + alias + " ON "@ + alias + ".data_file_id = data.data_file_id"@
}

/// How one more condition is spelled, with that layout.
pub open spec fn and_text(condition: Seq<char>, line: Seq<char>) -> Seq<char> {
    line + "AND "@ + condition
}

/// A line break and spaces.
pub open spec fn line_of(spaces: nat) -> Seq<char> {
    seq!['\n'] + Seq::new(spaces, |i: int| ' ')
}

/// The selection that a filter asks for.
pub open spec fn selection_of(filter: RenderedColumnFilter, table_id: i64) -> StatsSelection {
    StatsSelection {
        alias: filter.alias@,
        stats: views(filter.stats@),
        column_id: filter.column_id as int,
        table_id: table_id as int,
    }
}

/// Whether text is the selection that a filter asks for, in some layout.
pub open spec fn spells_selection(
    text: Seq<char>,
    filter: RenderedColumnFilter,
    table_id: i64,
) -> bool {
    exists|start: Seq<char>, line: Seq<char>, end: Seq<char>|
        is_blank(start) && is_blank(line) && line.len() > 0 && is_blank(end) && text
            == #[trigger] selection_text(selection_of(filter, table_id), start, line, end)
}

/// Whether text joins the statistics of a filter and keeps every file, in some layout.
pub open spec fn spells_left_join(text: Seq<char>, filter: RenderedColumnFilter) -> bool {
    exists|line: Seq<char>|
        is_blank(line) && line.len() > 0 && text == #[trigger] left_join_text(filter.alias@, line)
}

/// Whether text adds a condition to others, in some layout.
pub open spec fn spells_condition(text: Seq<char>, condition: Seq<char>) -> bool {
    exists|line: Seq<char>|
        is_blank(line) && line.len() > 0 && text == #[trigger] and_text(condition, line)
}

/// A narrowed listing loses no file for want of statistics, and a file is judged by its
/// own statistics of the column that was filtered, in the table that is listed.
pub proof fn lemma_left_join(
    rows: Seq<StatsRow>,
    filter: RenderedColumnFilter,
    table_id: i64,
    file: int,
)
    ensures
        left_joined(rows, selection_of(filter, table_id), file).len() > 0,
        forall|k: int|
            0 <= k < left_joined(rows, selection_of(filter, table_id), file).len() ==> (
            #[trigger] left_joined(rows, selection_of(filter, table_id), file)[k] matches Some(row)
                ==> row.data_file_id == file && row.column_id == filter.column_id && row.table_id
                == table_id),
        left_joined(rows, selection_of(filter, table_id), file)[0] is None <==> forall|i: int|
            0 <= i < rows.len() ==> (#[trigger] rows[i]).data_file_id != file || rows[i].column_id
                != filter.column_id || rows[i].table_id != table_id,
{
    let selection = selection_of(filter, table_id);
    let wanted = |row: StatsRow| selects_row(selection, row) && row.data_file_id == file;
    let own = rows.filter(wanted);
    let chosen = crate::order::lemma_filter_selects(rows, wanted);
    assert forall|k: int| 0 <= k < own.len() implies wanted(#[trigger] own[k]) by {
        assert(own[k] == rows[chosen[k]]);
    }
    if own.len() > 0 {
        assert(own[0] == rows[chosen[0]]);
        assert(wanted(rows[chosen[0]]));
        assert(left_joined(rows, selection, file)[0] == Some(own[0]));
    } else {
        assert forall|i: int| 0 <= i < rows.len() implies (#[trigger] rows[i]).data_file_id != file
            || rows[i].column_id != filter.column_id || rows[i].table_id != table_id by {
            if wanted(rows[i]) {
                assert(chosen.contains(i));
            }
        }
    }
}

proof fn lemma_line_is_blank(spaces: nat)
    ensures
        is_blank(line_of(spaces)),
        line_of(spaces).len() > 0,
        is_blank(Seq::empty()),
{
    assert forall|i: int| 0 <= i < line_of(spaces).len() implies crate::scan::is_space(
        #[trigger] line_of(spaces)[i],
    ) by {
        if i > 0 {
            assert(line_of(spaces)[i] == ' ');
        }
    }
}

/// The pieces that narrow a listing in DuckDB select and join as told above.
pub proof fn lemma_duckdb_narrowing(filter: RenderedColumnFilter, table_id: i64)
    ensures
        spells_selection(
            crate::metadata_provider_duckdb::cte_text(filter, table_id),
            filter,
            table_id,
        ),
        spells_left_join(crate::metadata_provider_duckdb::join_text(filter), filter),
{
    lemma_line_is_blank(8);
    lemma_line_is_blank(4);
    let selection = selection_of(filter, table_id);
    let (start, line, end) = (line_of(8), line_of(8), line_of(4));
    let stats = joined(views(filter.stats@), ", "@);
    let (column, table) = (int_text(filter.column_id as int), int_text(table_id as int));
    reveal_strlit(" AS (\n        SELECT data_file_id, ");
    reveal_strlit("\n        FROM ducklake_file_column_stats\n        WHERE column_id = ");
    reveal_strlit("\n    )");
    reveal_strlit(" AS (");
    reveal_strlit("SELECT data_file_id, ");
    reveal_strlit("FROM ducklake_file_column_stats");
    reveal_strlit("WHERE column_id = ");
    reveal_strlit(")");
    assert(" AS (\n        SELECT data_file_id, "@ =~= " AS ("@ + start + "SELECT data_file_id, "@);
    assert("\n        FROM ducklake_file_column_stats\n        WHERE column_id = "@ =~= line + "FROM ducklake_file_column_stats"@ + line
        + "WHERE column_id = "@);
    assert("\n    )"@ =~= end + ")"@);
    lemma_selection_sum(
        filter.alias@,
        " AS ("@,
        start,
        "SELECT data_file_id, "@,
        stats,
        line,
        "FROM ducklake_file_column_stats"@,
        "WHERE column_id = "@,
        column,
        " AND table_id = "@,
        table,
        end,
        ")"@,
    );
    assert(crate::metadata_provider_duckdb::cte_text(filter, table_id) == selection_text(
        selection,
        start,
        line,
        end,
    ));
    let break_line = line_of(4);
    reveal_strlit("\n    LEFT JOIN ");
    reveal_strlit("LEFT JOIN ");
    assert("\n    LEFT JOIN "@ =~= break_line + "LEFT JOIN "@);
    assert(crate::metadata_provider_duckdb::join_text(filter) == left_join_text(
        filter.alias@,
        break_line,
    ));
}

/// The pieces that narrow a listing in SQLite select and join as told above.
pub proof fn lemma_sqlite_narrowing(filter: RenderedColumnFilter, table_id: i64)
    ensures
        spells_selection(
            crate::metadata_provider_sqlite::cte_text(filter, table_id),
            filter,
            table_id,
        ),
        spells_left_join(crate::metadata_provider_sqlite::join_text(filter), filter),
        spells_condition(crate::metadata_provider_sqlite::condition_text(filter), filter.condition@),
{
    lemma_line_is_blank(17);
    lemma_line_is_blank(19);
    let selection = selection_of(filter, table_id);
    let (start, line, end) = (Seq::<char>::empty(), line_of(17), Seq::<char>::empty());
    let stats = joined(views(filter.stats@), ", "@);
    let (column, table) = (int_text(filter.column_id as int), int_text(table_id as int));
    reveal_strlit(" AS (SELECT data_file_id, ");
    reveal_strlit("\n                 FROM ducklake_file_column_stats\n                 WHERE column_id = ");
    reveal_strlit(" AS (");
    reveal_strlit("SELECT data_file_id, ");
    reveal_strlit("FROM ducklake_file_column_stats");
    reveal_strlit("WHERE column_id = ");
    reveal_strlit(")");
    assert(" AS (SELECT data_file_id, "@ =~= " AS ("@ + start + "SELECT data_file_id, "@);
    assert("\n                 FROM ducklake_file_column_stats\n                 WHERE column_id = "@ =~= line + "FROM ducklake_file_column_stats"@ + line
        + "WHERE column_id = "@);
    assert(")"@ =~= end + ")"@);
    lemma_selection_sum(
        filter.alias@,
        " AS ("@,
        start,
        "SELECT data_file_id, "@,
        stats,
        line,
        "FROM ducklake_file_column_stats"@,
        "WHERE column_id = "@,
        column,
        " AND table_id = "@,
        table,
        end,
        ")"@,
    );
    assert(crate::metadata_provider_sqlite::cte_text(filter, table_id) == selection_text(
        selection,
        start,
        line,
        end,
    ));
    let break_line = line_of(17);
    reveal_strlit("\n                 LEFT JOIN ");
    reveal_strlit("LEFT JOIN ");
    assert("\n                 LEFT JOIN "@ =~= break_line + "LEFT JOIN "@);
    assert(crate::metadata_provider_sqlite::join_text(filter) == left_join_text(
        filter.alias@,
        break_line,
    ));
    let and_line = line_of(19);
    reveal_strlit("\n                   AND ");
    reveal_strlit("AND ");
    assert("\n                   AND "@ =~= and_line + "AND "@);
    assert(crate::metadata_provider_sqlite::condition_text(filter) == and_text(
        filter.condition@,
        and_line,
    ));
}

/// The pieces that narrow a listing in MySQL select and join as told above.
pub proof fn lemma_mysql_narrowing(filter: RenderedColumnFilter, table_id: i64)
    ensures
        spells_selection(
            crate::metadata_provider_mysql::cte_text(filter, table_id),
            filter,
            table_id,
        ),
        spells_left_join(crate::metadata_provider_mysql::join_text(filter), filter),
        spells_condition(crate::metadata_provider_mysql::condition_text(filter), filter.condition@),
{
    lemma_line_is_blank(24);
    lemma_line_is_blank(17);
    lemma_line_is_blank(19);
    let selection = selection_of(filter, table_id);
    let (start, line, end) = (Seq::<char>::empty(), line_of(24), Seq::<char>::empty());
    let stats = joined(views(filter.stats@), ", "@);
    let (column, table) = (int_text(filter.column_id as int), int_text(table_id as int));
    reveal_strlit(" AS (SELECT data_file_id, ");
    reveal_strlit("\n                        FROM ducklake_file_column_stats\n                        WHERE column_id = ");
    reveal_strlit(" AS (");
    reveal_strlit("SELECT data_file_id, ");
    reveal_strlit("FROM ducklake_file_column_stats");
    reveal_strlit("WHERE column_id = ");
    reveal_strlit(")");
    assert(" AS (SELECT data_file_id, "@ =~= " AS ("@ + start + "SELECT data_file_id, "@);
    assert("\n                        FROM ducklake_file_column_stats\n                        WHERE column_id = "@ =~= line + "FROM ducklake_file_column_stats"@ + line
        + "WHERE column_id = "@);
    assert(")"@ =~= end + ")"@);
    lemma_selection_sum(
        filter.alias@,
        " AS ("@,
        start,
        "SELECT data_file_id, "@,
        stats,
        line,
        "FROM ducklake_file_column_stats"@,
        "WHERE column_id = "@,
        column,
        " AND table_id = "@,
        table,
        end,
        ")"@,
    );
    assert(crate::metadata_provider_mysql::cte_text(filter, table_id) == selection_text(
        selection,
        start,
        line,
        end,
    ));
    let break_line = line_of(17);
    reveal_strlit("\n                 LEFT JOIN ");
    reveal_strlit("LEFT JOIN ");
    assert("\n                 LEFT JOIN "@ =~= break_line + "LEFT JOIN "@);
    assert(crate::metadata_provider_mysql::join_text(filter) == left_join_text(
        filter.alias@,
        break_line,
    ));
    let and_line = line_of(19);
    reveal_strlit("\n                   AND ");
    reveal_strlit("AND ");
    assert("\n                   AND "@ =~= and_line + "AND "@);
    assert(crate::metadata_provider_mysql::condition_text(filter) == and_text(
        filter.condition@,
        and_line,
    ));
}

/// The pieces that narrow a listing in PostgreSQL select and join as told above.
pub proof fn lemma_postgres_narrowing(filter: RenderedColumnFilter, table_id: i64)
    ensures
        spells_selection(
            crate::metadata_provider_postgres::cte_text(filter, table_id),
            filter,
            table_id,
        ),
        spells_left_join(crate::metadata_provider_postgres::join_text(filter), filter),
        spells_condition(crate::metadata_provider_postgres::condition_text(filter), filter.condition@),
{
    lemma_line_is_blank(21);
    lemma_line_is_blank(17);
    lemma_line_is_blank(19);
    let selection = selection_of(filter, table_id);
    let (start, line, end) = (line_of(21), line_of(21), line_of(17));
    let stats = joined(views(filter.stats@), ", "@);
    let (column, table) = (int_text(filter.column_id as int), int_text(table_id as int));
    reveal_strlit(" AS (\n                     SELECT data_file_id, ");
    reveal_strlit("\n                     FROM ducklake_file_column_stats\n                     WHERE column_id = ");
    reveal_strlit("\n                 )");
    reveal_strlit(" AS (");
    reveal_strlit("SELECT data_file_id, ");
    reveal_strlit("FROM ducklake_file_column_stats");
    reveal_strlit("WHERE column_id = ");
    reveal_strlit(")");
    assert(" AS (\n                     SELECT data_file_id, "@ =~= " AS ("@ + start + "SELECT data_file_id, "@);
    assert("\n                     FROM ducklake_file_column_stats\n                     WHERE column_id = "@ =~= line + "FROM ducklake_file_column_stats"@ + line
        + "WHERE column_id = "@);
    assert("\n                 )"@ =~= end + ")"@);
    lemma_selection_sum(
        filter.alias@,
        " AS ("@,
        start,
        "SELECT data_file_id, "@,
        stats,
        line,
        "FROM ducklake_file_column_stats"@,
        "WHERE column_id = "@,
        column,
        " AND table_id = "@,
        table,
        end,
        ")"@,
    );
    assert(crate::metadata_provider_postgres::cte_text(filter, table_id) == selection_text(
        selection,
        start,
        line,
        end,
    ));
    let break_line = line_of(17);
    reveal_strlit("\n                 LEFT JOIN ");
    reveal_strlit("LEFT JOIN ");
    assert("\n                 LEFT JOIN "@ =~= break_line + "LEFT JOIN "@);
    assert(crate::metadata_provider_postgres::join_text(filter) == left_join_text(
        filter.alias@,
        break_line,
    ));
    let and_line = line_of(19);
    reveal_strlit("\n                   AND ");
    reveal_strlit("AND ");
    assert("\n                   AND "@ =~= and_line + "AND "@);
    assert(crate::metadata_provider_postgres::condition_text(filter) == and_text(
        filter.condition@,
        and_line,
    ));
}

/// Sums of text may be bracketed in any way.
proof fn lemma_selection_sum(
    alias: Seq<char>,
    open: Seq<char>,
    start: Seq<char>,
    select: Seq<char>,
    stats: Seq<char>,
    line: Seq<char>,
    from: Seq<char>,
    condition: Seq<char>,
    column: Seq<char>,
    and: Seq<char>,
    table: Seq<char>,
    end: Seq<char>,
    close: Seq<char>,
)
    ensures
        alias + (open + start + select) + stats + (line + from + line + condition) + column + and
            + table + (end + close) == alias + open + start + select + stats + line + from + line
            + condition + column + and + table + end + close,
{
    assert(alias + (open + start + select) =~= alias + open + start + select);
    let a = alias + open + start + select + stats;
    assert(a + (line + from + line + condition) =~= a + line + from + line + condition);
    let b = a + line + from + line + condition + column + and + table;
    assert(b + (end + close) =~= b + end + close);
}

/// Narrowing puts its pieces into the listing of SQLite and changes nothing of it: joins
/// stand in front of its conditions, and conditions behind them and in front of the order,
/// so that a page is narrowed before it is cut off.
pub proof fn lemma_sqlite_listing(
    capabilities: crate::metadata_provider_sqlite::SchemaCapabilities,
    cte: Seq<char>,
    joins: Seq<char>,
    conditions: Seq<char>,
)
    ensures
        exists|a: Seq<char>, b: Seq<char>, c: Seq<char>|
            {
                &&& crate::metadata_provider_sqlite::listing_text(capabilities, Seq::empty(), Seq::empty(), Seq::empty())
                    == a + b + c
                &&& crate::metadata_provider_sqlite::listing_text(capabilities, cte, joins, conditions)
                    == #[trigger] (cte + a + joins + b + conditions + c)
                &&& starts_clause(b, "WHERE "@)
                &&& starts_clause(c, "ORDER BY "@)
            },
{
    let p0 = crate::metadata_provider_sqlite::LISTING_SELECT@;
    let p1 = crate::metadata_provider_sqlite::column_or_null(capabilities.data_file_partial_max, "data.partial_max"@);
    let p2 = ", "@;
    let p3 = crate::metadata_provider_sqlite::column_or_null(capabilities.schema_versions, crate::metadata_provider_sqlite::SCHEMA_VERSION_QUERY@);
    let p4 = ", "@;
    let p5 = crate::metadata_provider_sqlite::column_or_null(capabilities.data_file_partition_id, "data.partition_id"@);
    let p6 = crate::metadata_provider_sqlite::LISTING_FROM@;
    let a = p0 + p1 + p2 + p3 + p4 + p5 + p6;
    let (b, c) = (crate::metadata_provider_sqlite::LISTING_WHERE@, crate::metadata_provider_sqlite::LISTING_ORDER@);
    lemma_line_is_blank(17);
    reveal_strlit("\n                 WHERE data.table_id = ?\n                   AND ? >= data.begin_snapshot\n                   AND (? < data.end_snapshot OR data.end_snapshot IS NULL)\n                   AND data.data_file_id > ?");
    reveal_strlit("\n                 ORDER BY data.data_file_id\n                 LIMIT ?");
    reveal_strlit("WHERE ");
    reveal_strlit("ORDER BY ");
    reveal_strlit("data.table_id = ?\n                   AND ? >= data.begin_snapshot\n                   AND (? < data.end_snapshot OR data.end_snapshot IS NULL)\n                   AND data.data_file_id > ?");
    reveal_strlit("data.data_file_id\n                 LIMIT ?");
    assert(b =~= line_of(17) + "WHERE "@ + "data.table_id = ?\n                   AND ? >= data.begin_snapshot\n                   AND (? < data.end_snapshot OR data.end_snapshot IS NULL)\n                   AND data.data_file_id > ?"@);
    assert(c =~= line_of(17) + "ORDER BY "@ + "data.data_file_id\n                 LIMIT ?"@);
    let none = Seq::<char>::empty();
    assert(cte + p0 + p1 + p2 + p3 + p4 + p5 + p6 =~= cte + a);
    assert(none + p0 + p1 + p2 + p3 + p4 + p5 + p6 =~= a);
    assert(a + none + b + none + c =~= a + b + c);
    assert(crate::metadata_provider_sqlite::listing_text(capabilities, cte, joins, conditions) == cte + a + joins + b + conditions
        + c);
}

/// Narrowing puts its pieces into the listing of MySQL and changes nothing of it: joins
/// stand in front of its conditions, and conditions behind them and in front of the order,
/// so that a page is narrowed before it is cut off.
pub proof fn lemma_mysql_listing(
    cte: Seq<char>,
    joins: Seq<char>,
    conditions: Seq<char>,
)
    ensures
        exists|a: Seq<char>, b: Seq<char>, c: Seq<char>|
            {
                &&& crate::metadata_provider_mysql::listing_text(Seq::empty(), Seq::empty(), Seq::empty())
                    == a + b + c
                &&& crate::metadata_provider_mysql::listing_text(cte, joins, conditions)
                    == #[trigger] (cte + a + joins + b + conditions + c)
                &&& starts_clause(b, "WHERE "@)
                &&& starts_clause(c, "ORDER BY "@)
            },
{
    let p0 = crate::metadata_provider_mysql::LISTING_SELECT@;
    let a = p0;
    let (b, c) = (crate::metadata_provider_mysql::LISTING_WHERE@, crate::metadata_provider_mysql::LISTING_ORDER@);
    lemma_line_is_blank(17);
    reveal_strlit("\n                 WHERE data.table_id = ?\n                   AND ? >= data.begin_snapshot\n                   AND (? < data.end_snapshot OR data.end_snapshot IS NULL)\n                   AND data.data_file_id > ?");
    reveal_strlit("\n                 ORDER BY data.data_file_id\n                 LIMIT ?");
    reveal_strlit("WHERE ");
    reveal_strlit("ORDER BY ");
    reveal_strlit("data.table_id = ?\n                   AND ? >= data.begin_snapshot\n                   AND (? < data.end_snapshot OR data.end_snapshot IS NULL)\n                   AND data.data_file_id > ?");
    reveal_strlit("data.data_file_id\n                 LIMIT ?");
    assert(b =~= line_of(17) + "WHERE "@ + "data.table_id = ?\n                   AND ? >= data.begin_snapshot\n                   AND (? < data.end_snapshot OR data.end_snapshot IS NULL)\n                   AND data.data_file_id > ?"@);
    assert(c =~= line_of(17) + "ORDER BY "@ + "data.data_file_id\n                 LIMIT ?"@);
    let none = Seq::<char>::empty();
    assert(cte + p0 =~= cte + a);
    assert(none + p0 =~= a);
    assert(a + none + b + none + c =~= a + b + c);
    assert(crate::metadata_provider_mysql::listing_text(cte, joins, conditions) == cte + a + joins + b + conditions
        + c);
}

/// Narrowing puts its pieces into the listing of PostgreSQL and changes nothing of it: joins
/// stand in front of its conditions, and conditions behind them and in front of the order,
/// so that a page is narrowed before it is cut off.
pub proof fn lemma_postgres_listing(
    capabilities: crate::metadata_provider_postgres::SchemaCapabilities,
    cte: Seq<char>,
    joins: Seq<char>,
    conditions: Seq<char>,
)
    ensures
        exists|a: Seq<char>, b: Seq<char>, c: Seq<char>|
            {
                &&& crate::metadata_provider_postgres::listing_text(capabilities, Seq::empty(), Seq::empty(), Seq::empty())
                    == a + b + c
                &&& crate::metadata_provider_postgres::listing_text(capabilities, cte, joins, conditions)
                    == #[trigger] (cte + a + joins + b + conditions + c)
                &&& starts_clause(b, "WHERE "@)
                &&& starts_clause(c, "ORDER BY "@)
            },
{
    let p0 = crate::metadata_provider_postgres::LISTING_SELECT@;
    let p1 = crate::metadata_provider_postgres::column_or_null(capabilities.data_file_partial_max, "data.partial_max::bigint"@);
    let p2 = ", "@;
    let p3 = crate::metadata_provider_postgres::column_or_null(capabilities.schema_versions, crate::metadata_provider_postgres::PAGE_SCHEMA_VERSION@);
    let p4 = crate::metadata_provider_postgres::LISTING_FROM@;
    let a = p0 + p1 + p2 + p3 + p4;
    let (b, c) = (crate::metadata_provider_postgres::LISTING_WHERE@, crate::metadata_provider_postgres::LISTING_ORDER@);
    lemma_line_is_blank(17);
    reveal_strlit("\n                 WHERE data.table_id = $4\n                   AND $5 >= data.begin_snapshot\n                   AND ($6 < data.end_snapshot OR data.end_snapshot IS NULL)\n                   AND data.data_file_id > $7");
    reveal_strlit("\n                 ORDER BY data.data_file_id\n                 LIMIT $8");
    reveal_strlit("WHERE ");
    reveal_strlit("ORDER BY ");
    reveal_strlit("data.table_id = $4\n                   AND $5 >= data.begin_snapshot\n                   AND ($6 < data.end_snapshot OR data.end_snapshot IS NULL)\n                   AND data.data_file_id > $7");
    reveal_strlit("data.data_file_id\n                 LIMIT $8");
    assert(b =~= line_of(17) + "WHERE "@ + "data.table_id = $4\n                   AND $5 >= data.begin_snapshot\n                   AND ($6 < data.end_snapshot OR data.end_snapshot IS NULL)\n                   AND data.data_file_id > $7"@);
    assert(c =~= line_of(17) + "ORDER BY "@ + "data.data_file_id\n                 LIMIT $8"@);
    let none = Seq::<char>::empty();
    assert(cte + p0 + p1 + p2 + p3 + p4 =~= cte + a);
    assert(none + p0 + p1 + p2 + p3 + p4 =~= a);
    assert(a + none + b + none + c =~= a + b + c);
    assert(crate::metadata_provider_postgres::listing_text(capabilities, cte, joins, conditions) == cte + a + joins + b + conditions
        + c);
}

/// Whether text starts a clause: white space, the word and what follows.
pub open spec fn starts_clause(text: Seq<char>, word: Seq<char>) -> bool {
    exists|line: Seq<char>, rest: Seq<char>|
        is_blank(line) && line.len() > 0 && text == #[trigger] (line + word + rest)
}

/// The ids of files, one behind the other.
pub open spec fn ids_text(files: Seq<DuckLakeTableFile>) -> Seq<char> {
    joined(Seq::new(files.len(), |i: int| int_text(files[i].data_file_id as int)), ", "@)
}

proof fn lemma_ids_text(files: Seq<DuckLakeTableFile>)
    ensures
        crate::file_page::id_list_text(files) == ids_text(files),
{
    let ids = files.map_values(|file: DuckLakeTableFile| int_text(file.data_file_id as int));
    assert(ids =~= Seq::new(files.len(), |i: int| int_text(files[i].data_file_id as int)));
}

/// What belongs to a page of DuckDB is asked for by the ids of its files where the listing
/// is narrowed, and by nothing more where it is not.
pub proof fn lemma_duckdb_restriction(column: Seq<char>, files: Seq<DuckLakeTableFile>)
    ensures
        crate::metadata_provider_duckdb::restriction_text(column, files, false).len() == 0,
        spells_condition(
            crate::metadata_provider_duckdb::restriction_text(column, files, true),
            column + " IN ("@ + ids_text(files) + ")"@,
        ),
{
    lemma_ids_text(files);
    lemma_line_is_blank(15);
    reveal_strlit("");
    reveal_strlit("\n               AND ");
    reveal_strlit("AND ");
    let line = line_of(15);
    let condition = column + " IN ("@ + ids_text(files) + ")"@;
    assert("\n               AND "@ =~= line + "AND "@);
    let front = "\n               AND "@;
    assert(front + column + " IN ("@ + ids_text(files) + ")"@ =~= front + condition);
    assert(crate::metadata_provider_duckdb::restriction_text(column, files, true) == and_text(
        condition,
        line,
    ));
}

/// What belongs to a page of SQLite is asked for by the ids of its files where the listing
/// is narrowed, and by nothing more where it is not.
pub proof fn lemma_sqlite_restriction(column: Seq<char>, files: Seq<DuckLakeTableFile>)
    ensures
        crate::metadata_provider_sqlite::restriction_text(column, files, false).len() == 0,
        spells_condition(
            crate::metadata_provider_sqlite::restriction_text(column, files, true),
            column + " IN ("@ + ids_text(files) + ")"@,
        ),
{
    lemma_ids_text(files);
    lemma_line_is_blank(19);
    reveal_strlit("");
    reveal_strlit("\n                   AND ");
    reveal_strlit("AND ");
    let line = line_of(19);
    let condition = column + " IN ("@ + ids_text(files) + ")"@;
    assert("\n                   AND "@ =~= line + "AND "@);
    let front = "\n                   AND "@;
    assert(front + column + " IN ("@ + ids_text(files) + ")"@ =~= front + condition);
    assert(crate::metadata_provider_sqlite::restriction_text(column, files, true) == and_text(
        condition,
        line,
    ));
}

/// What belongs to a page of MySQL is asked for by the ids of its files where the listing
/// is narrowed, and by nothing more where it is not.
pub proof fn lemma_mysql_restriction(column: Seq<char>, files: Seq<DuckLakeTableFile>)
    ensures
        crate::metadata_provider_mysql::restriction_text(column, files, false).len() == 0,
        spells_condition(
            crate::metadata_provider_mysql::restriction_text(column, files, true),
            column + " IN ("@ + ids_text(files) + ")"@,
        ),
{
    lemma_ids_text(files);
    lemma_line_is_blank(19);
    reveal_strlit("");
    reveal_strlit("\n                   AND ");
    reveal_strlit("AND ");
    let line = line_of(19);
    let condition = column + " IN ("@ + ids_text(files) + ")"@;
    assert("\n                   AND "@ =~= line + "AND "@);
    let front = "\n                   AND "@;
    assert(front + column + " IN ("@ + ids_text(files) + ")"@ =~= front + condition);
    assert(crate::metadata_provider_mysql::restriction_text(column, files, true) == and_text(
        condition,
        line,
    ));
}

/// What belongs to a page of PostgreSQL is asked for by ids that are bound, where the
/// listing is narrowed, and by nothing more where it is not.
pub proof fn lemma_postgres_restriction(column: Seq<char>, parameter: u64)
    ensures
        crate::metadata_provider_postgres::restriction_text(column, parameter, false).len() == 0,
        spells_condition(
            crate::metadata_provider_postgres::restriction_text(column, parameter, true),
            column + " = ANY($"@ + int_text(parameter as int) + "::bigint[])"@,
        ),
{
    lemma_line_is_blank(19);
    reveal_strlit("");
    reveal_strlit("\n                   AND ");
    reveal_strlit("AND ");
    let line = line_of(19);
    let number = int_text(parameter as int);
    let condition = column + " = ANY($"@ + number + "::bigint[])"@;
    assert("\n                   AND "@ =~= line + "AND "@);
    let front = "\n                   AND "@;
    assert(front + column + " = ANY($"@ + number + "::bigint[])"@ =~= front + condition);
    assert(crate::metadata_provider_postgres::restriction_text(column, parameter, true)
        == and_text(condition, line));
}

/// A condition on inlined rows is one more, in brackets of its own, and none changes
/// nothing.
pub proof fn lemma_pushed_condition(condition: String)
    ensures
        crate::metadata_provider_postgres::pushed_text(None).len() == 0,
        crate::metadata_provider_postgres::pushed_text(Some(condition)) == and_text(
            "("@ + condition@ + ")"@,
            seq![' '],
        ),
{
    reveal_strlit("");
    reveal_strlit(" AND (");
    reveal_strlit("AND ");
    reveal_strlit("(");
    assert(" AND ("@ =~= seq![' '] + "AND "@ + "("@);
    assert(seq![' '] + "AND "@ + ("("@ + condition@ + ")"@) =~= (seq![' '] + "AND "@ + "("@)
        + condition@ + ")"@);
}

/// A part that a catalog lacks reads as null, and one that it has reads as itself.
pub proof fn lemma_missing_columns(column: Seq<char>, missing: Seq<char>)
    ensures
        crate::metadata_provider_sqlite::column_or_null(true, column) == column,
        crate::metadata_provider_mysql::column_or_null(true, column) == column,
        crate::metadata_provider_postgres::column_or_null(true, column) == column,
        crate::metadata_provider_duckdb::default_column(true, column, missing) == column,
        crate::metadata_provider_sqlite::column_or_null(false, column) == "NULL"@,
        crate::metadata_provider_mysql::column_or_null(false, column) == "NULL"@,
        crate::metadata_provider_postgres::column_or_null(false, column) == "NULL::bigint"@,
        crate::metadata_provider_duckdb::default_column(false, column, missing) == missing,
{
}

/// The listing of DuckDB, cut at its own conditions, with selections in front, joins in
/// front of the conditions, and one more condition for each filter behind them.
pub open spec fn is_narrowed(
    base: Seq<char>,
    filters: Seq<RenderedColumnFilter>,
    table_id: i64,
    sql: Seq<char>,
    front: Seq<char>,
    back: Seq<char>,
    kept: nat,
    ctes: Seq<Seq<char>>,
    joins: Seq<Seq<char>>,
) -> bool {
    let mark = "WHERE data.table_id = ?"@;
    let and = "\n      AND "@;
    &&& base == front + mark + back
    &&& kept <= front.len() && is_blank(front.skip(kept as int))
    &&& ctes.len() == filters.len() && joins.len() == filters.len()
    &&& forall|i: int|
        0 <= i < filters.len() ==> spells_selection(#[trigger] ctes[i], filters[i], table_id)
    &&& forall|i: int| 0 <= i < filters.len() ==> spells_left_join(#[trigger] joins[i], filters[i])
    &&& sql == "WITH "@ + joined(ctes, ",\n    "@) + front.take(kept as int) + joined(
        joins,
        Seq::empty(),
    ) + "\n    "@ + mark + back + and + joined(
        Seq::new(filters.len(), |i: int| filters[i].condition@),
        and,
    )
}

/// A listing of DuckDB is narrowed wherever there is a filter and a place for it, and
/// nothing of it is changed but for white space.
pub proof fn lemma_duckdb_listing(
    base: Seq<char>,
    table_id: i64,
    filters: Seq<RenderedColumnFilter>,
)
    ensures
        crate::metadata_provider_duckdb::narrowed_listing(base, table_id, filters) is Some
            <==> filters.len() > 0 && crate::scan::contains_text(base, "WHERE data.table_id = ?"@),
        crate::metadata_provider_duckdb::narrowed_listing(base, table_id, filters) matches Some(sql)
            ==> exists|
            front: Seq<char>,
            back: Seq<char>,
            kept: nat,
            ctes: Seq<Seq<char>>,
            joins: Seq<Seq<char>>,
        | #[trigger]
            is_narrowed(base, filters, table_id, sql, front, back, kept, ctes, joins),
{
    let mark = "WHERE data.table_id = ?"@;
    if let Some(sql) = crate::metadata_provider_duckdb::narrowed_listing(base, table_id, filters) {
        let (front, back) = crate::scan::cut_at_first(base, mark)->0;
        crate::scan::lemma_cut_is_whole(base, mark);
        crate::scan::lemma_trimming(front);
        let trimmed = crate::scan::trimmed_end(front);
        let kept: nat = trimmed.len();
        assert(trimmed =~= front.take(kept as int)) by {
            assert(trimmed =~= front.subrange(0, trimmed.len() as int));
        }
        assert forall|i: int| 0 <= i < front.skip(kept as int).len() implies crate::scan::is_space(
            #[trigger] front.skip(kept as int)[i],
        ) by {
            assert(front.skip(kept as int)[i] == front[kept + i]);
        }
        let ctes = filters.map_values(
            |filter: RenderedColumnFilter|
                crate::metadata_provider_duckdb::cte_text(filter, table_id),
        );
        let joins = filters.map_values(
            |filter: RenderedColumnFilter| crate::metadata_provider_duckdb::join_text(filter),
        );
        assert forall|i: int| 0 <= i < filters.len() implies spells_selection(
            #[trigger] ctes[i],
            filters[i],
            table_id,
        ) by {
            lemma_duckdb_narrowing(filters[i], table_id);
        }
        assert forall|i: int| 0 <= i < filters.len() implies spells_left_join(
            #[trigger] joins[i],
            filters[i],
        ) by {
            lemma_duckdb_narrowing(filters[i], table_id);
        }
        let conditions = filters.map_values(|filter: RenderedColumnFilter| filter.condition@);
        assert(conditions =~= Seq::new(filters.len(), |i: int| filters[i].condition@));
        assert(is_narrowed(base, filters, table_id, sql, front, back, kept, ctes, joins));
    }
}

// ---------------------------------------------------------------------------
// Which files a page shows
// ---------------------------------------------------------------------------

/// A comparison of a column with a parameter.
pub enum Comparison {
    /// The column is the parameter.
    Is,
    /// The column is at or below the parameter.
    StartsBy,
    /// The column is above the parameter, or there is no value.
    EndsBehind,
    /// The column is above the parameter.
    Above,
}

/// How a comparison is spelled.
pub open spec fn comparison_text(
    comparison: Comparison,
    column: Seq<char>,
    parameter: Seq<char>,
) -> Seq<char> {
    match comparison {
        Comparison::Is => column + " = "@ + parameter,
        Comparison::StartsBy => parameter + " >= "@ + column,
        Comparison::EndsBehind => "("@ + parameter + " < "@ + column + " OR "@ + column
            + " IS NULL)"@,
        Comparison::Above => column + " > "@ + parameter,
    }
}

/// Whether a comparison holds of a value, which may be null.
pub open spec fn compares(comparison: Comparison, value: Option<int>, parameter: int) -> bool {
    match comparison {
        Comparison::Is => value == Some(parameter),
        Comparison::StartsBy => value matches Some(v) && parameter >= v,
        Comparison::EndsBehind => value matches Some(v) ==> parameter < v,
        Comparison::Above => value matches Some(v) && v > parameter,
    }
}

/// A file of a listing.
pub struct ListedFile {
    pub data_file_id: int,
    pub table_id: int,
    pub begin_snapshot: int,
    pub end_snapshot: Option<int>,
}

/// Whether the conditions of a page hold of a file.
pub open spec fn is_on_page(file: ListedFile, table: int, snapshot: int, after: int) -> bool {
    &&& compares(Comparison::Is, Some(file.table_id), table)
    &&& compares(Comparison::StartsBy, Some(file.begin_snapshot), snapshot)
    &&& compares(Comparison::EndsBehind, file.end_snapshot, snapshot)
    &&& compares(Comparison::Above, Some(file.data_file_id), after)
}

/// A page shows the files of its table that were there at the snapshot, from the one on
/// that follows the cursor: a file that came with the snapshot is shown, and one that was
/// gone with it is not.
pub proof fn lemma_page_shows(file: ListedFile, table: int, snapshot: int, after: int)
    ensures
        is_on_page(file, table, snapshot, after) <==> file.table_id == table && file.begin_snapshot
            <= snapshot && (file.end_snapshot matches Some(end) ==> snapshot < end) && after
            < file.data_file_id,
        file.end_snapshot == Some(snapshot) ==> !is_on_page(file, table, snapshot, after),
        file.data_file_id == after ==> !is_on_page(file, table, snapshot, after),
{
}

/// The conditions of a page, in their order, with that layout.
pub open spec fn page_conditions_text(
    table: Seq<char>,
    from: Seq<char>,
    until: Seq<char>,
    after: Seq<char>,
    line: Seq<char>,
    next: Seq<char>,
) -> Seq<char> {
    line + "WHERE "@ + comparison_text(Comparison::Is, "data.table_id"@, table) + next + "AND "@
        + comparison_text(Comparison::StartsBy, "data.begin_snapshot"@, from) + next + "AND "@
        + comparison_text(Comparison::EndsBehind, "data.end_snapshot"@, until) + next + "AND "@
        + comparison_text(Comparison::Above, "data.data_file_id"@, after)
}

/// The conditions and the order of a page of SQLite: files by their ids, from the lowest on,
/// and no more than the limit.
pub proof fn lemma_sqlite_page()
    ensures
        crate::metadata_provider_sqlite::LISTING_WHERE@ == page_conditions_text(
            "?"@,
            "?"@,
            "?"@,
            "?"@,
            line_of(17),
            line_of(19),
        ),
        crate::metadata_provider_sqlite::LISTING_ORDER@ == line_of(17) + "ORDER BY "@
            + "data.data_file_id"@ + line_of(17) + "LIMIT "@ + "?"@,
{
    reveal_strlit("\n                 WHERE data.table_id = ?\n                   AND ? >= data.begin_snapshot\n                   AND (? < data.end_snapshot OR data.end_snapshot IS NULL)\n                   AND data.data_file_id > ?");
    reveal_strlit("\n                 ORDER BY data.data_file_id\n                 LIMIT ?");
    reveal_strlit("\n                 WHERE data.table_id = ?");
    reveal_strlit("\n                   AND ? >= data.begin_snapshot");
    reveal_strlit("\n                   AND (? < data.end_snapshot OR data.end_snapshot IS NULL)");
    reveal_strlit("\n                   AND data.data_file_id > ?");
    reveal_strlit(" < ");
    reveal_strlit(" = ");
    reveal_strlit(" > ");
    reveal_strlit(" >= ");
    reveal_strlit(" IS NULL)");
    reveal_strlit(" OR ");
    reveal_strlit("(");
    reveal_strlit("?");
    reveal_strlit("AND ");
    reveal_strlit("LIMIT ");
    reveal_strlit("ORDER BY ");
    reveal_strlit("WHERE ");
    reveal_strlit("data.begin_snapshot");
    reveal_strlit("data.data_file_id");
    reveal_strlit("data.end_snapshot");
    reveal_strlit("data.table_id");
    let (line, next) = (line_of(17), line_of(19));
    let is = comparison_text(Comparison::Is, "data.table_id"@, "?"@);
    let starts = comparison_text(Comparison::StartsBy, "data.begin_snapshot"@, "?"@);
    let ends = comparison_text(Comparison::EndsBehind, "data.end_snapshot"@, "?"@);
    let above = comparison_text(Comparison::Above, "data.data_file_id"@, "?"@);
    assert("\n                 WHERE data.table_id = ?"@ =~= line + "WHERE "@ + is);
    assert("\n                   AND ? >= data.begin_snapshot"@ =~= next + "AND "@ + starts);
    assert("\n                   AND (? < data.end_snapshot OR data.end_snapshot IS NULL)"@
        =~= next + "AND "@ + ends);
    assert("\n                   AND data.data_file_id > ?"@ =~= next + "AND "@ + above);
    assert(crate::metadata_provider_sqlite::LISTING_WHERE@ =~= "\n                 WHERE data.table_id = ?"@
        + "\n                   AND ? >= data.begin_snapshot"@
        + "\n                   AND (? < data.end_snapshot OR data.end_snapshot IS NULL)"@
        + "\n                   AND data.data_file_id > ?"@);
    lemma_conditions_sum(line + "WHERE "@ + is, next, "AND "@, starts, ends, above);
    assert(crate::metadata_provider_sqlite::LISTING_ORDER@ =~= line + "ORDER BY "@ + "data.data_file_id"@
        + line + "LIMIT "@ + "?"@);
}

/// The conditions and the order of a page of MySQL: files by their ids, from the lowest on,
/// and no more than the limit.
pub proof fn lemma_mysql_page()
    ensures
        crate::metadata_provider_mysql::LISTING_WHERE@ == page_conditions_text(
            "?"@,
            "?"@,
            "?"@,
            "?"@,
            line_of(17),
            line_of(19),
        ),
        crate::metadata_provider_mysql::LISTING_ORDER@ == line_of(17) + "ORDER BY "@
            + "data.data_file_id"@ + line_of(17) + "LIMIT "@ + "?"@,
{
    reveal_strlit("\n                 WHERE data.table_id = ?\n                   AND ? >= data.begin_snapshot\n                   AND (? < data.end_snapshot OR data.end_snapshot IS NULL)\n                   AND data.data_file_id > ?");
    reveal_strlit("\n                 ORDER BY data.data_file_id\n                 LIMIT ?");
    reveal_strlit("\n                 WHERE data.table_id = ?");
    reveal_strlit("\n                   AND ? >= data.begin_snapshot");
    reveal_strlit("\n                   AND (? < data.end_snapshot OR data.end_snapshot IS NULL)");
    reveal_strlit("\n                   AND data.data_file_id > ?");
    reveal_strlit(" < ");
    reveal_strlit(" = ");
    reveal_strlit(" > ");
    reveal_strlit(" >= ");
    reveal_strlit(" IS NULL)");
    reveal_strlit(" OR ");
    reveal_strlit("(");
    reveal_strlit("?");
    reveal_strlit("AND ");
    reveal_strlit("LIMIT ");
    reveal_strlit("ORDER BY ");
    reveal_strlit("WHERE ");
    reveal_strlit("data.begin_snapshot");
    reveal_strlit("data.data_file_id");
    reveal_strlit("data.end_snapshot");
    reveal_strlit("data.table_id");
    let (line, next) = (line_of(17), line_of(19));
    let is = comparison_text(Comparison::Is, "data.table_id"@, "?"@);
    let starts = comparison_text(Comparison::StartsBy, "data.begin_snapshot"@, "?"@);
    let ends = comparison_text(Comparison::EndsBehind, "data.end_snapshot"@, "?"@);
    let above = comparison_text(Comparison::Above, "data.data_file_id"@, "?"@);
    assert("\n                 WHERE data.table_id = ?"@ =~= line + "WHERE "@ + is);
    assert("\n                   AND ? >= data.begin_snapshot"@ =~= next + "AND "@ + starts);
    assert("\n                   AND (? < data.end_snapshot OR data.end_snapshot IS NULL)"@
        =~= next + "AND "@ + ends);
    assert("\n                   AND data.data_file_id > ?"@ =~= next + "AND "@ + above);
    assert(crate::metadata_provider_mysql::LISTING_WHERE@ =~= "\n                 WHERE data.table_id = ?"@
        + "\n                   AND ? >= data.begin_snapshot"@
        + "\n                   AND (? < data.end_snapshot OR data.end_snapshot IS NULL)"@
        + "\n                   AND data.data_file_id > ?"@);
    lemma_conditions_sum(line + "WHERE "@ + is, next, "AND "@, starts, ends, above);
    assert(crate::metadata_provider_mysql::LISTING_ORDER@ =~= line + "ORDER BY "@ + "data.data_file_id"@
        + line + "LIMIT "@ + "?"@);
}

/// The conditions and the order of a page of PostgreSQL: files by their ids, from the lowest on,
/// and no more than the limit.
pub proof fn lemma_postgres_page()
    ensures
        crate::metadata_provider_postgres::LISTING_WHERE@ == page_conditions_text(
            "$4"@,
            "$5"@,
            "$6"@,
            "$7"@,
            line_of(17),
            line_of(19),
        ),
        crate::metadata_provider_postgres::LISTING_ORDER@ == line_of(17) + "ORDER BY "@
            + "data.data_file_id"@ + line_of(17) + "LIMIT "@ + "$8"@,
{
    reveal_strlit("\n                 WHERE data.table_id = $4\n                   AND $5 >= data.begin_snapshot\n                   AND ($6 < data.end_snapshot OR data.end_snapshot IS NULL)\n                   AND data.data_file_id > $7");
    reveal_strlit("\n                 ORDER BY data.data_file_id\n                 LIMIT $8");
    reveal_strlit("\n                 WHERE data.table_id = $4");
    reveal_strlit("\n                   AND $5 >= data.begin_snapshot");
    reveal_strlit("\n                   AND ($6 < data.end_snapshot OR data.end_snapshot IS NULL)");
    reveal_strlit("\n                   AND data.data_file_id > $7");
    reveal_strlit(" < ");
    reveal_strlit(" = ");
    reveal_strlit(" > ");
    reveal_strlit(" >= ");
    reveal_strlit(" IS NULL)");
    reveal_strlit(" OR ");
    reveal_strlit("$4");
    reveal_strlit("$5");
    reveal_strlit("$6");
    reveal_strlit("$7");
    reveal_strlit("$8");
    reveal_strlit("(");
    reveal_strlit("AND ");
    reveal_strlit("LIMIT ");
    reveal_strlit("ORDER BY ");
    reveal_strlit("WHERE ");
    reveal_strlit("data.begin_snapshot");
    reveal_strlit("data.data_file_id");
    reveal_strlit("data.end_snapshot");
    reveal_strlit("data.table_id");
    let (line, next) = (line_of(17), line_of(19));
    let is = comparison_text(Comparison::Is, "data.table_id"@, "$4"@);
    let starts = comparison_text(Comparison::StartsBy, "data.begin_snapshot"@, "$5"@);
    let ends = comparison_text(Comparison::EndsBehind, "data.end_snapshot"@, "$6"@);
    let above = comparison_text(Comparison::Above, "data.data_file_id"@, "$7"@);
    assert("\n                 WHERE data.table_id = $4"@ =~= line + "WHERE "@ + is);
    assert("\n                   AND $5 >= data.begin_snapshot"@ =~= next + "AND "@ + starts);
    assert("\n                   AND ($6 < data.end_snapshot OR data.end_snapshot IS NULL)"@
        =~= next + "AND "@ + ends);
    assert("\n                   AND data.data_file_id > $7"@ =~= next + "AND "@ + above);
    assert(crate::metadata_provider_postgres::LISTING_WHERE@ =~= "\n                 WHERE data.table_id = $4"@
        + "\n                   AND $5 >= data.begin_snapshot"@
        + "\n                   AND ($6 < data.end_snapshot OR data.end_snapshot IS NULL)"@
        + "\n                   AND data.data_file_id > $7"@);
    lemma_conditions_sum(line + "WHERE "@ + is, next, "AND "@, starts, ends, above);
    assert(crate::metadata_provider_postgres::LISTING_ORDER@ =~= line + "ORDER BY "@ + "data.data_file_id"@
        + line + "LIMIT "@ + "$8"@);
}

/// Sums of text may be bracketed in any way.
proof fn lemma_conditions_sum(
    first: Seq<char>,
    next: Seq<char>,
    and: Seq<char>,
    a: Seq<char>,
    b: Seq<char>,
    c: Seq<char>,
)
    ensures
        first + (next + and + a) + (next + and + b) + (next + and + c) == first + next + and + a
            + next + and + b + next + and + c,
{
    assert(first + (next + and + a) =~= first + next + and + a);
    let p = first + next + and + a;
    assert(p + (next + and + b) =~= p + next + and + b);
    let q = p + next + and + b;
    assert(q + (next + and + c) =~= q + next + and + c);
}

} // verus!
