//! The sort order that rewritten rows are written in.

use vstd::prelude::*;

use crate::error::{invalid_config, DuckLakeError};
use crate::text::{int_text, push_i64, same_text, views};

verus! {

/// The dialect in which this library reads sort expressions.
pub const DUCKDB_DIALECT: &'static str = "duckdb";

/// Which way a key sorts.
#[derive(Debug, Clone, Copy, PartialEq, Eq, Structural)]
pub enum SortDirection {
    Asc,
    Desc,
}

/// Where nulls go.
#[derive(Debug, Clone, Copy, PartialEq, Eq, Structural)]
pub enum NullOrder {
    NullsFirst,
    NullsLast,
}

/// One key of a sort specification.
#[derive(Debug, Clone, PartialEq, Eq)]
pub struct SortField {
    pub sort_key_index: i32,
    pub expression: String,
    /// The column that the expression names, where it is nothing but a column.
    pub column: Option<String>,
    pub dialect: String,
    pub direction: SortDirection,
    pub null_order: NullOrder,
}

/// The sort specification of a table.
#[derive(Debug, Clone, PartialEq, Eq)]
pub struct SortSpec {
    pub sort_id: i64,
    pub fields: Vec<SortField>,
}

/// One key of an ordering of rows.
#[derive(Debug, Clone, PartialEq, Eq)]
pub struct SortKey {
    /// Which column of the rows is compared.
    pub index: usize,
    pub name: String,
    pub descending: bool,
    pub nulls_first: bool,
}

/// Whether a key is written in the dialect that is read here. Other keys are
/// skipped.
pub open spec fn is_readable(field: SortField) -> bool {
    field.dialect@ == DUCKDB_DIALECT@
}

/// The keys that are not skipped.
pub open spec fn readable_fields(fields: Seq<SortField>) -> Seq<SortField> {
    fields.filter(|field: SortField| is_readable(field))
}

/// Whether `index` is the first column of that name.
pub open spec fn is_column_index(columns: Seq<Seq<char>>, name: Seq<char>, index: int) -> bool {
    &&& 0 <= index < columns.len()
    &&& columns[index] == name
    &&& forall|j: int| 0 <= j < index ==> #[trigger] columns[j] != name
}

/// Whether `key` is what `field` asks for.
pub open spec fn is_key_of(columns: Seq<Seq<char>>, field: SortField, key: SortKey) -> bool {
    &&& field.column matches Some(name)
    &&& key.name@ == name@
    &&& is_column_index(columns, name@, key.index as int)
    &&& key.descending == (field.direction is Desc)
    &&& key.nulls_first == (field.null_order is NullsFirst)
}

/// Whether a key names a column that the rows do not have.
pub open spec fn is_absent(columns: Seq<Seq<char>>, field: SortField) -> bool {
    field.column matches Some(name) && !columns.contains(name@)
}

/// The error on a key that is more than a column.
pub open spec fn unsupported_key_text(sort_id: i64) -> Seq<char> {
    "DuckLake sort order "@ + int_text(sort_id as int)
        + " contains an unsupported expression; datafusion-ducklake can write only bare-column sort keys"@
}

/// The error on a key that the rows do not have.
pub open spec fn absent_key_text(name: Seq<char>) -> Seq<char> {
    "DuckLake sort key '"@ + name + "' is not present in the rewrite schema"@
}

/// Whether the `i`th key is the first that the rows do not have.
pub open spec fn is_first_absent(
    columns: Seq<Seq<char>>,
    fields: Seq<SortField>,
    i: int,
) -> bool {
    &&& 0 <= i < fields.len()
    &&& is_absent(columns, fields[i])
    &&& forall|j: int| 0 <= j < i ==> !is_absent(columns, #[trigger] fields[j])
}

/// Whether `out` is the ordering that a sort specification asks for: nothing
/// without a specification or without a readable key, and an error where a
/// readable key is more than a column or names one that the rows do not have.
pub open spec fn is_ordering(
    columns: Seq<Seq<char>>,
    sort_spec: Option<SortSpec>,
    out: Result<Option<Vec<SortKey>>, DuckLakeError>,
) -> bool {
    match sort_spec {
        None => out == Ok::<Option<Vec<SortKey>>, DuckLakeError>(None),
        Some(spec) => {
            let fields = readable_fields(spec.fields@);
            if exists|i: int| 0 <= i < fields.len() && (#[trigger] fields[i]).column is None {
                invalid_config(out, unsupported_key_text(spec.sort_id))
            } else if fields.len() == 0 {
                out == Ok::<Option<Vec<SortKey>>, DuckLakeError>(None)
            } else if exists|i: int|
                0 <= i < fields.len() && is_absent(columns, #[trigger] fields[i]) {
                exists|i: int|
                    #[trigger] is_first_absent(columns, fields, i) && invalid_config(
                        out,
                        absent_key_text(fields[i].column->0@),
                    )
            } else {
                &&& out matches Ok(Some(keys))
                &&& keys@.len() == fields.len()
                &&& forall|i: int|
                    0 <= i < fields.len() ==> is_key_of(columns, fields[i], #[trigger] keys@[i])
            }
        },
    }
}

fn column_index(columns: &Vec<String>, name: &str) -> (found: Option<usize>)
    ensures
        match found {
            Some(index) => is_column_index(views(columns@), name@, index as int),
            None => !views(columns@).contains(name@),
        },
{
    let mut i: usize = 0;
    assert(views(columns@).len() == columns@.len());
    while i < columns.len()
        invariant
            i <= columns@.len(),
            views(columns@).len() == columns@.len(),
            forall|j: int| 0 <= j < i ==> #[trigger] views(columns@)[j] != name@,
        decreases columns@.len() - i,
    {
        assert(views(columns@)[i as int] == columns@[i as int]@);
        if same_text(columns[i].as_str(), name) {
            return Some(i);
        }
        i = i + 1;
    }
    None
}

impl SortSpec {
    /// The positions of the readable keys; `None` where one of them is more than a
    /// column.
    fn producible_fields(&self) -> (out: Option<Vec<usize>>)
        ensures
            match out {
                Some(indices) => {
                    &&& indices@.len() == readable_fields(self.fields@).len()
                    &&& forall|i: int|
                        0 <= i < indices@.len() ==> #[trigger] indices@[i] < self.fields@.len()
                            && self.fields@[indices@[i] as int] == readable_fields(self.fields@)[i]
                    &&& forall|i: int|
                        0 <= i < indices@.len() ==> (#[trigger] readable_fields(
                            self.fields@,
                        )[i]).column is Some
                },
                None => exists|i: int|
                    0 <= i < readable_fields(self.fields@).len() && (#[trigger] readable_fields(
                        self.fields@,
                    )[i]).column is None,
            },
    {
        let ghost readable = |field: SortField| is_readable(field);
        let ghost all = self.fields@;
        let mut indices: Vec<usize> = Vec::new();
        let mut complete = true;
        let mut i: usize = 0;
        reveal(Seq::filter);
        assert(all.take(0) =~= Seq::empty());
        while i < self.fields.len()
            invariant
                all == self.fields@,
                readable == (|field: SortField| is_readable(field)),
                i <= all.len(),
                indices@.len() == all.take(i as int).filter(readable).len(),
                forall|k: int|
                    0 <= k < indices@.len() ==> #[trigger] indices@[k] < all.len()
                        && all[indices@[k] as int] == all.take(i as int).filter(readable)[k],
                complete == !exists|k: int|
                    0 <= k < indices@.len() && (#[trigger] all.take(i as int).filter(
                        readable,
                    )[k]).column is None,
            decreases all.len() - i,
        {
            let ghost before = all.take(i as int).filter(readable);
            let ghost after = all.take(i as int + 1).filter(readable);
            proof {
                reveal(Seq::filter);
                assert(all.take(i as int + 1).drop_last() =~= all.take(i as int));
                assert(readable(all[i as int]) == is_readable(all[i as int]));
            }
            if same_text(self.fields[i].dialect.as_str(), DUCKDB_DIALECT) {
                assert(after == before.push(all[i as int]));
                indices.push(i);
                let was_complete = complete;
                if self.fields[i].column.is_none() {
                    assert(after[before.len() as int].column is None);
                    complete = false;
                }
                proof {
                    if !was_complete {
                        let k = choose|k: int|
                            0 <= k < before.len() && (#[trigger] before[k]).column is None;
                        assert(after[k].column is None);
                    } else if complete {
                        assert forall|k: int| 0 <= k < after.len() implies (
                        #[trigger] after[k]).column is Some by {
                            if k < before.len() {
                                assert(before[k].column is Some);
                            }
                        }
                    }
                }
            } else {
                assert(after == before);
            }
            i = i + 1;
        }
        assert(all.take(all.len() as int) =~= all);
        if complete {
            Some(indices)
        } else {
            None
        }
    }
}

/// Resolves the sort specification of a table against the columns of the rows that
/// are rewritten. `None` writes them unsorted.
pub fn compaction_ordering(columns: &Vec<String>, sort_spec: &Option<SortSpec>) -> (out: Result<
    Option<Vec<SortKey>>,
    DuckLakeError,
>)
    ensures
        is_ordering(views(columns@), *sort_spec, out),
{
    let spec = match sort_spec {
        None => return Ok(None),
        Some(spec) => spec,
    };
    let ghost fields = readable_fields(spec.fields@);
    let indices = match spec.producible_fields() {
        Some(indices) => indices,
        None => {
            let mut message = "DuckLake sort order ".to_string();
            push_i64(&mut message, spec.sort_id);
            message.append(
                " contains an unsupported expression; datafusion-ducklake can write only bare-column sort keys",
            );
            return Err(DuckLakeError::InvalidConfig(message));
        },
    };
    if indices.len() == 0 {
        return Ok(None);
    }
    let mut keys: Vec<SortKey> = Vec::new();
    let mut i: usize = 0;
    while i < indices.len()
        invariant
            fields == readable_fields(spec.fields@),
            *sort_spec == Some(*spec),
            0 < indices@.len() == fields.len(),
            forall|k: int|
                0 <= k < indices@.len() ==> #[trigger] indices@[k] < spec.fields@.len()
                    && spec.fields@[indices@[k] as int] == fields[k],
            forall|k: int| 0 <= k < fields.len() ==> (#[trigger] fields[k]).column is Some,
            i <= indices@.len(),
            keys@.len() == i,
            forall|k: int|
                0 <= k < i ==> is_key_of(views(columns@), fields[k], #[trigger] keys@[k]),
            forall|k: int| 0 <= k < i ==> !is_absent(views(columns@), #[trigger] fields[k]),
        decreases indices@.len() - i,
    {
        let field = &spec.fields[indices[i]];
        assert(*field == fields[i as int]);
        if let Some(name) = &field.column {
            match column_index(columns, name.as_str()) {
                Some(index) => {
                    let descending = match field.direction {
                        SortDirection::Desc => true,
                        SortDirection::Asc => false,
                    };
                    let nulls_first = match field.null_order {
                        NullOrder::NullsFirst => true,
                        NullOrder::NullsLast => false,
                    };
                    keys.push(SortKey { index, name: name.clone(), descending, nulls_first });
                    assert(views(columns@)[index as int] == name@);
                },
                None => {
                    let mut message = "DuckLake sort key '".to_string();
                    message.append(name.as_str());
                    message.append("' is not present in the rewrite schema");
                    assert(is_absent(views(columns@), fields[i as int]));
                    assert(is_first_absent(views(columns@), fields, i as int));
                    return Err(DuckLakeError::InvalidConfig(message));
                },
            }
        }
        i = i + 1;
    }
    Ok(Some(keys))
}

/// Rows are sorted by the keys that are written for DuckDB, in their order: each compares
/// the column that it names, in the direction and with the place of nulls that it asks
/// for. A key for another dialect does not count.
pub proof fn lemma_ordering_keys(
    columns: Seq<Seq<char>>,
    spec: SortSpec,
    keys: Vec<SortKey>,
)
    requires
        is_ordering(columns, Some(spec), Ok(Some(keys))),
    ensures
        exists|chosen: Seq<int>|
            {
                &&& #[trigger] chosen.len() == keys@.len()
                &&& crate::order::ascending(chosen)
                &&& forall|i: int|
                    0 <= i < spec.fields@.len() && (#[trigger] spec.fields@[i]).dialect@
                        == "duckdb"@ ==> chosen.contains(i)
                &&& forall|k: int|
                    0 <= k < chosen.len() ==> 0 <= (#[trigger] chosen[k]) < spec.fields@.len() && ({
                        let field = spec.fields@[chosen[k]];
                        let key = keys@[k];
                        &&& field.dialect@ == "duckdb"@
                        &&& field.column matches Some(name) && name@ == key.name@
                        &&& key.index < columns.len() && columns[key.index as int] == key.name@
                        &&& forall|j: int|
                            0 <= j < key.index ==> #[trigger] columns[j] != key.name@
                        &&& key.descending <==> field.direction is Desc
                        &&& key.nulls_first <==> field.null_order is NullsFirst
                    })
            },
{
    let wanted = |field: SortField| is_readable(field);
    let chosen = crate::order::lemma_filter_selects(spec.fields@, wanted);
    let fields = readable_fields(spec.fields@);
    assert(chosen.len() == keys@.len());
    assert forall|k: int| 0 <= k < chosen.len() implies 0 <= (#[trigger] chosen[k])
        < spec.fields@.len() && ({
        let field = spec.fields@[chosen[k]];
        let key = keys@[k];
        &&& field.dialect@ == "duckdb"@
        &&& field.column matches Some(name) && name@ == key.name@
        &&& key.index < columns.len() && columns[key.index as int] == key.name@
        &&& forall|j: int| 0 <= j < key.index ==> #[trigger] columns[j] != key.name@
        &&& key.descending <==> field.direction is Desc
        &&& key.nulls_first <==> field.null_order is NullsFirst
    }) by {
        assert(fields[k] == spec.fields@[chosen[k]]);
        assert(is_key_of(columns, fields[k], keys@[k]));
    }
    assert forall|i: int|
        0 <= i < spec.fields@.len() && (#[trigger] spec.fields@[i]).dialect@
            == "duckdb"@ implies chosen.contains(i) by {
        assert(wanted(spec.fields@[i]));
    }
}

/// Rows are written unsorted if, and only if, there is no specification or none of its
/// keys is written for DuckDB. A key for DuckDB that is more than a column, or a column
/// that the rows lack, is an error, and there is no other.
pub proof fn lemma_ordering_outcomes(
    columns: Seq<Seq<char>>,
    sort_spec: Option<SortSpec>,
    out: Result<Option<Vec<SortKey>>, DuckLakeError>,
)
    requires
        is_ordering(columns, sort_spec, out),
    ensures
        out matches Ok(None) <==> (sort_spec matches Some(spec) ==> forall|i: int|
            0 <= i < spec.fields@.len() ==> (#[trigger] spec.fields@[i]).dialect@ != "duckdb"@),
        out is Err <==> (sort_spec matches Some(spec) && exists|i: int|
            0 <= i < spec.fields@.len() && (#[trigger] spec.fields@[i]).dialect@ == "duckdb"@
                && match spec.fields@[i].column {
                None => true,
                Some(name) => forall|j: int| 0 <= j < columns.len() ==> #[trigger] columns[j] != name@,
            }),
{
    if let Some(spec) = sort_spec {
        let wanted = |field: SortField| is_readable(field);
        let chosen = crate::order::lemma_filter_selects(spec.fields@, wanted);
        let fields = readable_fields(spec.fields@);
        assert forall|k: int| 0 <= k < fields.len() implies spec.fields@[chosen[k]]
            == #[trigger] fields[k] && 0 <= chosen[k] < spec.fields@.len()
            && spec.fields@[chosen[k]].dialect@ == "duckdb"@ by {
        }
        assert forall|i: int|
            0 <= i < spec.fields@.len() && (#[trigger] spec.fields@[i]).dialect@
                == "duckdb"@ implies exists|k: int| 0 <= k < fields.len() && #[trigger] fields[k]
            == spec.fields@[i] by {
            assert(wanted(spec.fields@[i]));
            let k = choose|k: int| 0 <= k < chosen.len() && chosen[k] == i;
            assert(fields[k] == spec.fields@[i]);
        }
        assert forall|k: int| 0 <= k < fields.len() implies (is_absent(columns, #[trigger] fields[k])
            <==> (fields[k].column matches Some(name) && forall|j: int|
            0 <= j < columns.len() ==> #[trigger] columns[j] != name@)) by {
            if let Some(name) = fields[k].column {
                if forall|j: int| 0 <= j < columns.len() ==> #[trigger] columns[j] != name@ {
                    assert(!columns.contains(name@));
                } else {
                    let j = choose|j: int| 0 <= j < columns.len() && #[trigger] columns[j] == name@;
                    assert(columns.contains(columns[j]));
                }
            }
        }
        if out is Err {
            if exists|i: int| 0 <= i < fields.len() && (#[trigger] fields[i]).column is None {
                let k = choose|i: int| 0 <= i < fields.len() && (#[trigger] fields[i]).column is None;
                assert(spec.fields@[chosen[k]].column is None);
            } else if fields.len() > 0 {
                let k = choose|i: int| 0 <= i < fields.len() && is_absent(columns, #[trigger] fields[i]);
                assert(spec.fields@[chosen[k]] == fields[k]);
            }
        }
        if exists|i: int|
            0 <= i < spec.fields@.len() && (#[trigger] spec.fields@[i]).dialect@ == "duckdb"@
                && match spec.fields@[i].column {
                None => true,
                Some(name) => forall|j: int| 0 <= j < columns.len() ==> #[trigger] columns[j] != name@,
            } {
            let i = choose|i: int|
                0 <= i < spec.fields@.len() && (#[trigger] spec.fields@[i]).dialect@ == "duckdb"@
                    && match spec.fields@[i].column {
                    None => true,
                    Some(name) => forall|j: int|
                        0 <= j < columns.len() ==> #[trigger] columns[j] != name@,
                };
            let k = choose|k: int| 0 <= k < fields.len() && #[trigger] fields[k] == spec.fields@[i];
            assert(fields[k].column is None || is_absent(columns, fields[k]));
        }
        if out matches Ok(None) {
            assert(fields.len() == 0);
        }
        if forall|i: int|
            0 <= i < spec.fields@.len() ==> (#[trigger] spec.fields@[i]).dialect@ != "duckdb"@ {
            if fields.len() > 0 {
                assert(fields[0] == spec.fields@[chosen[0]]);
            }
        }
    }
}

} // verus!
