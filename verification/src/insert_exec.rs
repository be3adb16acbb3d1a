//! Inserting rows into a table: which way of writing is taken.
//!
//! The rows are collected first. What follows depends on the write mode, on
//! whether the table is partitioned and on whether there are any rows: the steps
//! are asked for one by one, and the reply to each decides the next.

use vstd::prelude::*;

use crate::error::{internal, DuckLakeError};
use crate::text::{nat_text, push_u64};
use crate::types::{DataType, Field};

verus! {

/// What happens to the rows that a table has.
#[derive(Debug, Clone, Copy, PartialEq, Eq, Structural)]
pub enum WriteMode {
    /// They stay.
    Append,
    /// They are retired.
    Replace,
}

/// What is to be done next.
#[derive(Debug, Clone, Copy, PartialEq, Eq, Structural)]
pub enum InsertStep {
    /// Split the rows by partition.
    Split,
    /// Write one file per partition, all in one snapshot.
    WritePartitioned,
    /// Write the rows to as many files as their size asks for, in one snapshot.
    WriteRows,
    /// Write what there is through one session, which retires the rows that the
    /// table has even where there are none to write.
    WriteSession,
    /// Report that many rows.
    Report(u64),
}

/// The rows of an insert, by the number of rows in each batch.
pub open spec fn has_rows(batches: Seq<usize>) -> bool {
    exists|i: int| 0 <= i < batches.len() && #[trigger] batches[i] > 0
}

fn any_rows(batches: &Vec<usize>) -> (found: bool)
    ensures
        found == has_rows(batches@),
{
    let mut i: usize = 0;
    while i < batches.len()
        invariant
            i <= batches@.len(),
            forall|k: int| 0 <= k < i ==> #[trigger] batches@[k] == 0,
        decreases batches@.len() - i,
    {
        if batches[i] > 0 {
            return true;
        }
        i = i + 1;
    }
    false
}

/// How unpartitioned rows are written.
pub open spec fn plain_step(batches: Seq<usize>) -> InsertStep {
    if has_rows(batches) {
        InsertStep::WriteRows
    } else {
        InsertStep::WriteSession
    }
}

/// The insert into one table.
#[derive(Debug, Clone, PartialEq, Eq)]
pub struct DuckLakeInsertExec {
    pub schema_name: String,
    pub table_name: String,
    pub write_mode: WriteMode,
    /// Whether the table is partitioned.
    pub partitioned: bool,
}

/// The error on a partition that the insert does not have.
pub open spec fn partition_text(partition: usize) -> Seq<char> {
    "DuckLakeInsertExec only supports partition 0, got "@ + nat_text(partition as nat)
}

/// The name of a write mode.
pub open spec fn mode_name(mode: WriteMode) -> Seq<char> {
    match mode {
        WriteMode::Append => "Append"@,
        WriteMode::Replace => "Replace"@,
    }
}

impl DuckLakeInsertExec {
    /// The step behind the collection of the rows.
    pub open spec fn after_collection(self, batches: Seq<usize>) -> InsertStep {
        if batches.len() == 0 && self.write_mode is Append {
            InsertStep::Report(0)
        } else if self.partitioned && batches.len() > 0 {
            InsertStep::Split
        } else {
            plain_step(batches)
        }
    }

    /// The step behind a split into that many partitions.
    pub open spec fn after_split(self, batches: Seq<usize>, groups: usize) -> InsertStep {
        if groups > 0 {
            InsertStep::WritePartitioned
        } else {
            plain_step(batches)
        }
    }

    /// The step that is taken once any split is done, into that many partitions.
    pub open spec fn write_step(self, batches: Seq<usize>, groups: usize) -> InsertStep {
        if self.after_collection(batches) is Split {
            self.after_split(batches, groups)
        } else {
            self.after_collection(batches)
        }
    }

    /// How the insert is shown in a plan.
    pub fn display(&self) -> (out: String)
        ensures
            out@ == "DuckLakeInsertExec: schema="@ + self.schema_name@ + ", table="@
                + self.table_name@ + ", mode="@ + mode_name(self.write_mode),
    {
        let mut out = "DuckLakeInsertExec: schema=".to_string();
        out.append(self.schema_name.as_str());
        out.append(", table=");
        out.append(self.table_name.as_str());
        out.append(", mode=");
        out.append(
            match self.write_mode {
                WriteMode::Append => "Append",
                WriteMode::Replace => "Replace",
            },
        );
        out
    }

    /// Whether the insert can be run as this partition of a plan: it has only one.
    pub fn check_partition(&self, partition: usize) -> (result: Result<(), DuckLakeError>)
        ensures
            if partition == 0 {
                result == Ok::<(), DuckLakeError>(())
            } else {
                internal(result, partition_text(partition))
            },
    {
        if partition != 0 {
            let mut message = "DuckLakeInsertExec only supports partition 0, got ".to_string();
            push_u64(&mut message, partition as u64);
            return Err(DuckLakeError::Internal(message));
        }
        Ok(())
    }

    /// What follows once the rows are collected. Only an append without a batch is
    /// over at once: a replacement still has rows to retire.
    pub fn collected(&self, batches: &Vec<usize>) -> (step: InsertStep)
        ensures
            step == self.after_collection(batches@),
    {
        if batches.len() == 0 {
            if let WriteMode::Append = self.write_mode {
                return InsertStep::Report(0);
            }
        }
        if self.partitioned && batches.len() > 0 {
            return InsertStep::Split;
        }
        if any_rows(batches) {
            InsertStep::WriteRows
        } else {
            InsertStep::WriteSession
        }
    }

    /// What follows once the rows are split into that many partitions.
    pub fn split(&self, batches: &Vec<usize>, groups: usize) -> (step: InsertStep)
        ensures
            step == self.after_split(batches@, groups),
    {
        if groups > 0 {
            InsertStep::WritePartitioned
        } else if any_rows(batches) {
            InsertStep::WriteRows
        } else {
            InsertStep::WriteSession
        }
    }

    /// What follows once that many rows are written.
    pub fn written(&self, records: u64) -> (step: InsertStep)
        ensures
            step == InsertStep::Report(records),
    {
        InsertStep::Report(records)
    }
}

/// A replacement is never over before something is written, whatever it is given:
/// the rows that the table had are retired even by an empty one.
pub proof fn lemma_replacement_writes(insert: DuckLakeInsertExec, batches: Seq<usize>, groups: usize)
    requires
        insert.write_mode is Replace,
    ensures
        ({
            let step = insert.write_step(batches, groups);
            step is WritePartitioned || step is WriteRows || step is WriteSession
        }),
{
}

/// Rows are always written: an insert that has any ends neither without a write nor
/// in the session that is meant for none.
pub proof fn lemma_rows_are_written(insert: DuckLakeInsertExec, batches: Seq<usize>, groups: usize)
    requires
        has_rows(batches),
    ensures
        ({
            let step = insert.write_step(batches, groups);
            step is WritePartitioned || step is WriteRows
        }),
{
}

/// The columns of what an insert reports.
pub fn make_insert_count_schema() -> (columns: Vec<Field>)
    ensures
        columns@.len() == 1,
        columns@[0].name@ == "count"@,
        columns@[0].data_type == DataType::UInt64,
{
    let mut columns: Vec<Field> = Vec::new();
    columns.push(Field { name: "count".to_string(), data_type: DataType::UInt64 });
    columns
}

/// Which way of writing is taken, for every insert. Nothing is done only by an append
/// that was handed no batch. Rows are split if, and only if, the table is partitioned and
/// there is a batch; a split that found rows is written by partition. All else is written
/// plainly where there is a row, and through a session where there is none.
pub proof fn lemma_insert_steps(insert: DuckLakeInsertExec, batches: Seq<usize>, groups: usize)
    ensures
        insert.after_collection(batches) is Report <==> batches.len() == 0
            && insert.write_mode is Append,
        insert.after_collection(batches) matches InsertStep::Report(rows) ==> rows == 0,
        insert.after_collection(batches) is Split <==> insert.partitioned && batches.len() > 0,
        insert.after_collection(batches) is WriteRows <==> !insert.partitioned && exists|i: int|
            0 <= i < batches.len() && #[trigger] batches[i] != 0,
        insert.after_collection(batches) !is WritePartitioned,
        insert.after_split(batches, groups) is WritePartitioned <==> groups != 0,
        insert.after_split(batches, groups) is WriteRows <==> groups == 0 && exists|i: int|
            0 <= i < batches.len() && #[trigger] batches[i] != 0,
        insert.after_split(batches, groups) is WriteSession <==> groups == 0 && forall|i: int|
            0 <= i < batches.len() ==> #[trigger] batches[i] == 0,
{
    if exists|i: int| 0 <= i < batches.len() && #[trigger] batches[i] != 0 {
        let i = choose|i: int| 0 <= i < batches.len() && #[trigger] batches[i] != 0;
        assert(batches[i] > 0);
    }
}

} // verus!
