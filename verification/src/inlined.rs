//! Rows that the catalog keeps in tables of its own instead of in files.

use vstd::prelude::*;
use crate::scan::text_starts_with;
use crate::text::{chars_of, join, joined, quote_with, quoted, same_text, views};

verus! {

/// What the names of tables with inlined rows begin with.
pub const INLINED_DATA_PREFIX: &'static str = "ducklake_inlined_data_";

/// Whether `c` is an ASCII letter or digit, or `_`.
pub open spec fn is_word_char(c: char) -> bool {
    ||| 'a' <= c <= 'z'
    ||| 'A' <= c <= 'Z'
    ||| '0' <= c <= '9'
    ||| c == '_'
}

/// Whether `name` looks like the name of a table with inlined rows.
pub open spec fn is_inlined_table_name(name: Seq<char>) -> bool {
    &&& INLINED_DATA_PREFIX@.is_prefix_of(name)
    &&& forall|i: int| 0 <= i < name.len() ==> is_word_char(#[trigger] name[i])
}

/// Whether `name` looks like the name of a table with inlined rows. Other tables
/// are never touched, whatever the catalog's registry lists.
pub fn is_inlined_data_table(name: &str) -> (inlined: bool)
    ensures
        inlined == is_inlined_table_name(name@),
{
    if !text_starts_with(name, INLINED_DATA_PREFIX) {
        return false;
    }
    let chars = chars_of(name);
    let mut i: usize = 0;
    while i < chars.len()
        invariant
            i <= chars@.len(),
            chars@ == name@,
            forall|k: int| 0 <= k < i ==> is_word_char(#[trigger] name@[k]),
        decreases chars@.len() - i,
    {
        let c: char = chars[i];
        assert(name@[i as int] == c);
        if !(('a' <= c && c <= 'z') || ('A' <= c && c <= 'Z') || ('0' <= c && c <= '9') || c
            == '_') {
            return false;
        }
        i = i + 1;
    }
    true
}

/// A name of nothing but word characters has none of the characters that quote
/// or end a piece of SQL.
pub proof fn lemma_inlined_table_name_is_plain(name: Seq<char>, c: char)
    requires
        is_inlined_table_name(name),
        c == '"' || c == '\'' || c == '`' || c == ';' || c == ' ',
    ensures
        !name.contains(c),
{
    if name.contains(c) {
        let i = choose|i: int| 0 <= i < name.len() && name[i] == c;
        assert(is_word_char(name[i]));
    }
}

/// Whether `names` holds `name`.
pub fn contains_name(names: &Vec<String>, name: &str) -> (found: bool)
    ensures
        found == views(names@).contains(name@),
{
    let mut i: usize = 0;
    while i < names.len()
        invariant
            i <= names@.len(),
            forall|k: int| 0 <= k < i ==> (#[trigger] views(names@)[k]) != name@,
        decreases names@.len() - i,
    {
        if same_text(names[i].as_str(), name) {
            assert(views(names@)[i as int] == name@);
            return true;
        }
        i = i + 1;
    }
    assert(views(names@).len() == names@.len());
    false
}

/// The columns that a table with inlined rows has, quoted with `mark`.
pub open spec fn present_columns(
    columns: Seq<Seq<char>>,
    present: Seq<Seq<char>>,
    mark: char,
) -> Seq<Seq<char>> {
    columns.filter(|name: Seq<char>| present.contains(name)).map_values(
        |name: Seq<char>| quoted(name, mark),
    )
}

/// The columns that a table with inlined rows has, quoted with `mark`.
pub fn quote_present(columns: &Vec<String>, present: &Vec<String>, mark: char) -> (out: Vec<String>)
    ensures
        views(out@) == present_columns(views(columns@), views(present@), mark),
{
    let ghost keep = |name: Seq<char>| views(present@).contains(name);
    let ghost quote = |name: Seq<char>| quoted(name, mark);
    let ghost all = views(columns@);
    let mut out: Vec<String> = Vec::new();
    let mut i: usize = 0;
    reveal(Seq::filter);
    assert(all.take(0) =~= Seq::empty());
    assert(views(out@) =~= all.take(0).filter(keep).map_values(quote));
    while i < columns.len()
        invariant
            i <= columns@.len(),
            all == views(columns@),
            keep == (|name: Seq<char>| views(present@).contains(name)),
            quote == (|name: Seq<char>| quoted(name, mark)),
            views(out@) =~= all.take(i as int).filter(keep).map_values(quote),
        decreases columns@.len() - i,
    {
        let ghost before = out@;
        proof {
            reveal(Seq::filter);
            let next = all.take(i as int + 1);
            assert(next.drop_last() =~= all.take(i as int));
            assert(next.last() == columns@[i as int]@);
        }
        if contains_name(present, columns[i].as_str()) {
            out.push(quote_with(columns[i].as_str(), mark));
            assert(views(out@) =~= views(before).push(quoted(columns@[i as int]@, mark)));
        }
        i = i + 1;
    }
    assert(all.take(all.len() as int) =~= all);
    out
}

/// How each column is read: as `projections` says where the table has it, as
/// `missing` where it does not.
pub open spec fn projected_columns(
    columns: Seq<Seq<char>>,
    projections: Seq<Seq<char>>,
    present: Seq<Seq<char>>,
    missing: Seq<char>,
) -> Seq<Seq<char>> {
    Seq::new(
        columns.len(),
        |i: int|
            if present.contains(columns[i]) {
                projections[i]
            } else {
                missing
            },
    )
}

/// How the columns are read, separated by commas.
pub open spec fn projected_text(
    columns: Seq<Seq<char>>,
    projections: Seq<Seq<char>>,
    present: Seq<Seq<char>>,
    missing: Seq<char>,
) -> Seq<char> {
    joined(projected_columns(columns, projections, present, missing), ", "@)
}

/// How the columns are read, separated by commas.
pub fn project_columns(
    columns: &Vec<String>,
    projections: &Vec<String>,
    present: &Vec<String>,
    missing: &str,
) -> (out: String)
    requires
        projections@.len() == columns@.len(),
    ensures
        out@ == projected_text(views(columns@), views(projections@), views(present@), missing@),
{
    let ghost wanted = projected_columns(
        views(columns@),
        views(projections@),
        views(present@),
        missing@,
    );
    let mut projected: Vec<String> = Vec::new();
    let mut i: usize = 0;
    while i < columns.len()
        invariant
            i <= columns@.len(),
            projections@.len() == columns@.len(),
            wanted == projected_columns(
                views(columns@),
                views(projections@),
                views(present@),
                missing@,
            ),
            projected@.len() == i,
            forall|k: int| 0 <= k < i ==> (#[trigger] projected@[k])@ == wanted[k],
        decreases columns@.len() - i,
    {
        if contains_name(present, columns[i].as_str()) {
            projected.push(projections[i].clone());
        } else {
            projected.push(missing.to_string());
        }
        i = i + 1;
    }
    assert(views(projected@) =~= wanted);
    join(&projected, ", ")
}

// ---------------------------------------------------------------------------
// Scanning the inlined rows of a table
// ---------------------------------------------------------------------------

/// The tables that are registered to hold inlined rows, how far they have been
/// read, and the batches that were found, each with the name of its table.
pub struct InlinedTables<B> {
    pub tables: Vec<String>,
    pub next: usize,
    pub batches: Vec<(String, B)>,
}

/// Where the scan of the inlined rows of a table stands.
pub enum InlinedScan<B> {
    /// List the registered tables.
    Registry,
    /// List the columns of the next table.
    Columns(InlinedTables<B>),
    /// Read the rows of the next table, which has these columns.
    Rows(InlinedTables<B>, Vec<String>),
    /// These are the batches.
    Done(Vec<(String, B)>),
}

/// Whether `n` is the first table from `from` on whose name is one of a table with
/// inlined rows, or the number of tables where there is none.
pub open spec fn is_next_table(tables: Seq<String>, from: int, n: int) -> bool {
    &&& from <= n <= tables.len()
    &&& n < tables.len() ==> is_inlined_table_name(tables[n]@)
    &&& forall|k: int| from <= k < n ==> !is_inlined_table_name((#[trigger] tables[k])@)
}

/// Whether `state` goes on with the first table from `from` on that is read.
pub open spec fn goes_on<B>(
    tables: Vec<String>,
    from: int,
    batches: Seq<(String, B)>,
    state: InlinedScan<B>,
) -> bool {
    match state {
        InlinedScan::Columns(scan) => {
            &&& scan.tables == tables
            &&& scan.next < tables@.len()
            &&& is_next_table(tables@, from, scan.next as int)
            &&& scan.batches@ == batches
        },
        InlinedScan::Done(found) => {
            &&& is_next_table(tables@, from, tables@.len() as int)
            &&& found@ == batches
        },
        _ => false,
    }
}

fn go_on<B>(tables: Vec<String>, from: usize, batches: Vec<(String, B)>) -> (state: InlinedScan<B>)
    requires
        from <= tables@.len(),
    ensures
        goes_on(tables, from as int, batches@, state),
{
    let mut next: usize = from;
    while next < tables.len()
        invariant
            from <= next <= tables@.len(),
            forall|k: int|
                from <= k < next ==> !is_inlined_table_name((#[trigger] tables@[k])@),
        decreases tables@.len() - next,
    {
        if is_inlined_data_table(tables[next].as_str()) {
            return InlinedScan::Columns(InlinedTables { tables, next, batches });
        }
        next = next + 1;
    }
    InlinedScan::Done(batches)
}

/// Starts the scan. Without a registry there are no inlined rows.
pub fn begin_inlined_scan<B>(has_registry: bool) -> (state: InlinedScan<B>)
    ensures
        if has_registry {
            state is Registry
        } else {
            state matches InlinedScan::Done(batches) && batches@.len() == 0
        },
{
    if has_registry {
        InlinedScan::Registry
    } else {
        InlinedScan::Done(Vec::new())
    }
}

impl<B> InlinedScan<B> {
    /// The table that is read next is one with inlined rows.
    pub open spec fn wf(self) -> bool {
        match self {
            InlinedScan::Columns(scan) => {
                &&& scan.next < scan.tables@.len()
                &&& is_inlined_table_name(scan.tables@[scan.next as int]@)
            },
            InlinedScan::Rows(scan, _) => {
                &&& scan.next < scan.tables@.len()
                &&& is_inlined_table_name(scan.tables@[scan.next as int]@)
            },
            _ => true,
        }
    }

    /// Goes on with the registered tables.
    pub fn registered(self, tables: Vec<String>) -> (next: Self)
        requires
            self is Registry,
        ensures
            next.wf(),
            goes_on(tables, 0, Seq::empty(), next),
    {
        go_on(tables, 0, Vec::new())
    }

    /// Goes on with the columns of the table.
    pub fn with_columns(self, present: Vec<String>) -> (next: Self)
        requires
            self.wf(),
            self is Columns,
        ensures
            next.wf(),
            next == InlinedScan::Rows(self->Columns_0, present),
    {
        match self {
            InlinedScan::Columns(scan) => InlinedScan::Rows(scan, present),
            other => other,
        }
    }

    /// Goes on with the rows of the table as a batch, or without one where there were
    /// none.
    pub fn with_rows(self, batch: Option<B>) -> (next: Self)
        requires
            self.wf(),
            self is Rows,
        ensures
            next.wf(),
            ({
                let scan = self->Rows_0;
                exists|name: String| #[trigger] name@ == scan.tables@[scan.next as int]@
                    && goes_on(
                    scan.tables,
                    scan.next + 1,
                    with_batch(scan.batches@, name, batch),
                    next,
                )
            }),
    {
        match self {
            InlinedScan::Rows(scan, _) => {
                let InlinedTables { tables, next, mut batches } = scan;
                let length: usize = tables.len();
                assert(next < length);
                let name = tables[next].clone();
                let ghost before = batches@;
                let ghost kept = name;
                if let Some(batch) = batch {
                    batches.push((name, batch));
                }
                assert(batches@ =~= with_batch(before, kept, batch));
                assert(kept@ == tables@[next as int]@);
                go_on(tables, next + 1, batches)
            },
            other => other,
        }
    }
}

/// The batches with one more, if there is one.
pub open spec fn with_batch<B>(batches: Seq<(String, B)>, name: String, batch: Option<B>) -> Seq<
    (String, B),
> {
    match batch {
        Some(batch) => batches.push((name, batch)),
        None => batches,
    }
}

/// What the first `n` of the registered tables contribute: `found` are the batches
/// that a table has, if it has rows and is one that is read.
pub open spec fn contributions<B>(
    tables: Seq<String>,
    found: Seq<Option<B>>,
    n: int,
) -> Seq<(Seq<char>, B)>
    decreases n,
{
    if n <= 0 {
        Seq::empty()
    } else if is_inlined_table_name(tables[n - 1]@) && found[n - 1] is Some {
        contributions(tables, found, n - 1).push((tables[n - 1]@, found[n - 1]->0))
    } else {
        contributions(tables, found, n - 1)
    }
}

/// Batches by the names of their tables.
pub open spec fn named_batches<B>(batches: Seq<(String, B)>) -> Seq<(Seq<char>, B)> {
    batches.map_values(|batch: (String, B)| (batch.0@, batch.1))
}

/// Tables that are not read contribute nothing.
proof fn lemma_skipped_prefix<B>(tables: Seq<String>, found: Seq<Option<B>>, from: int, n: int)
    requires
        0 <= from <= n <= tables.len(),
        forall|k: int| from <= k < n ==> !is_inlined_table_name((#[trigger] tables[k])@),
    ensures
        contributions(tables, found, n) == contributions(tables, found, from),
    decreases n - from,
{
    if from < n {
        lemma_skipped_prefix(tables, found, from, n - 1);
        assert(!is_inlined_table_name(tables[n - 1]@));
    }
}

/// A scan collects the batches of the registered tables that are read, in the order
/// of the registry: where it holds what the tables in front of the next one
/// contribute, it does so again once the rows of the next one are in, and at its end
/// it holds what all of them contribute.
pub proof fn lemma_scan_collects<B>(
    scan: InlinedTables<B>,
    found: Seq<Option<B>>,
    name: String,
    next: InlinedScan<B>,
)
    requires
        found.len() == scan.tables@.len(),
        scan.next < scan.tables@.len(),
        is_inlined_table_name(scan.tables@[scan.next as int]@),
        name@ == scan.tables@[scan.next as int]@,
        named_batches(scan.batches@) == contributions(scan.tables@, found, scan.next as int),
        goes_on(
            scan.tables,
            scan.next + 1,
            with_batch(scan.batches@, name, found[scan.next as int]),
            next,
        ),
    ensures
        match next {
            InlinedScan::Columns(after) => named_batches(after.batches@) == contributions(
                scan.tables@,
                found,
                after.next as int,
            ),
            InlinedScan::Done(batches) => named_batches(batches@) == contributions(
                scan.tables@,
                found,
                scan.tables@.len() as int,
            ),
            _ => false,
        },
{
    let batches = with_batch(scan.batches@, name, found[scan.next as int]);
    assert(named_batches(batches) =~= contributions(scan.tables@, found, scan.next + 1));
    match next {
        InlinedScan::Columns(after) => {
            lemma_skipped_prefix(scan.tables@, found, scan.next + 1, after.next as int);
        },
        InlinedScan::Done(_) => {
            lemma_skipped_prefix(scan.tables@, found, scan.next + 1, scan.tables@.len() as int);
        },
        _ => {},
    }
}

/// A table holds inlined rows where its name starts with `ducklake_inlined_data_` and has
/// nothing in it but letters, digits and underscores of ASCII.
pub proof fn lemma_inlined_names(name: Seq<char>)
    ensures
        is_inlined_table_name(name) <==> "ducklake_inlined_data_"@.is_prefix_of(name) && forall|i: int|
            0 <= i < name.len() ==> {
                let code = #[trigger] name[i] as int;
                48 <= code <= 57 || 65 <= code <= 90 || code == 95 || 97 <= code <= 122
            },
{
}

/// Of the columns asked for those that the table has are named, each once, quoted and in
/// their order, and no other.
pub proof fn lemma_present_columns(
    columns: Seq<Seq<char>>,
    present: Seq<Seq<char>>,
    mark: char,
)
    ensures
        exists|chosen: Seq<int>|
            {
                &&& #[trigger] chosen.len() == present_columns(columns, present, mark).len()
                &&& crate::order::ascending(chosen)
                &&& forall|k: int|
                    0 <= k < chosen.len() ==> 0 <= (#[trigger] chosen[k]) < columns.len()
                        && present_columns(columns, present, mark)[k] == quoted(
                        columns[chosen[k]],
                        mark,
                    ) && exists|p: int|
                        0 <= p < present.len() && #[trigger] present[p] == columns[chosen[k]]
                &&& forall|i: int, p: int|
                    0 <= i < columns.len() && 0 <= p < present.len() && #[trigger] present[p]
                        == #[trigger] columns[i] ==> chosen.contains(i)
            },
{
    let wanted = |name: Seq<char>| present.contains(name);
    let chosen = crate::order::lemma_filter_selects(columns, wanted);
    assert(chosen.len() == present_columns(columns, present, mark).len());
    assert forall|k: int| 0 <= k < chosen.len() implies 0 <= (#[trigger] chosen[k]) < columns.len()
        && present_columns(columns, present, mark)[k] == quoted(columns[chosen[k]], mark)
        && exists|p: int| 0 <= p < present.len() && #[trigger] present[p] == columns[chosen[k]] by {
        assert(wanted(columns[chosen[k]]));
        let p = choose|p: int| 0 <= p < present.len() && present[p] == columns[chosen[k]];
        assert(present[p] == columns[chosen[k]]);
    }
    assert forall|i: int, p: int|
        0 <= i < columns.len() && 0 <= p < present.len() && #[trigger] present[p]
            == #[trigger] columns[i] implies chosen.contains(i) by {
        assert(present.contains(present[p]));
        assert(wanted(columns[i]));
    }
}

/// A column that the table has is read as asked for, and one that it lacks as `missing`:
/// there is one item for each column, in their order.
pub proof fn lemma_projected(
    columns: Seq<Seq<char>>,
    projections: Seq<Seq<char>>,
    present: Seq<Seq<char>>,
    missing: Seq<char>,
    items: Seq<Seq<char>>,
)
    requires
        projections.len() == columns.len(),
        items.len() == columns.len(),
        forall|i: int|
            0 <= i < columns.len() ==> ((exists|p: int|
                0 <= p < present.len() && #[trigger] present[p] == columns[i])
                ==> #[trigger] items[i] == projections[i]),
        forall|i: int|
            0 <= i < columns.len() ==> ((forall|p: int|
                0 <= p < present.len() ==> #[trigger] present[p] != columns[i])
                ==> #[trigger] items[i] == missing),
    ensures
        projected_text(columns, projections, present, missing) == joined(items, ", "@),
{
    let wanted = projected_columns(columns, projections, present, missing);
    assert forall|i: int| 0 <= i < columns.len() implies wanted[i] == #[trigger] items[i] by {
        if present.contains(columns[i]) {
            let p = choose|p: int| 0 <= p < present.len() && present[p] == columns[i];
            assert(present[p] == columns[i]);
        } else {
            assert forall|p: int| 0 <= p < present.len() implies #[trigger] present[p]
                != columns[i] by {
            }
        }
    }
    assert(wanted =~= items);
}

/// The next table that is read is the first of those left that holds inlined rows; the
/// scan is over if, and only if, none does.
pub proof fn lemma_next_table<B>(
    tables: Vec<String>,
    from: int,
    batches: Seq<(String, B)>,
    state: InlinedScan<B>,
)
    requires
        goes_on(tables, from, batches, state),
        0 <= from <= tables@.len(),
    ensures
        state is Done <==> forall|k: int|
            from <= k < tables@.len() ==> !is_inlined_table_name((#[trigger] tables@[k])@),
        state matches InlinedScan::Columns(scan) ==> scan.tables == tables && from <= scan.next
            && is_inlined_table_name(tables@[scan.next as int]@) && (forall|k: int|
            from <= k < scan.next ==> !is_inlined_table_name((#[trigger] tables@[k])@))
            && scan.batches@ == batches,
        state matches InlinedScan::Done(found) ==> found@ == batches,
        state is Done || state is Columns,
{
}

} // verus!
