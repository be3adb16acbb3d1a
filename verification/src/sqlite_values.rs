//! Reading the values of inlined rows out of a catalog in SQLite.
//!
//! SQLite stores every integer at one width and has no unsigned, boolean or
//! nested type, so a column is fetched as one of four storage classes and each
//! value is then converted to the type of the column.

use vstd::prelude::*;

use crate::error::{invalid_config, DuckLakeError};
use crate::inlined::contains_name;
use crate::scan::{parse_u64, u64_value};
use crate::text::{int_text, nat_text, push_i64, push_u64, views};
use crate::types::DataType;

verus! {

/// How the values of a column are stored.
#[derive(Debug, Clone, Copy, PartialEq, Eq, Structural)]
pub enum StorageClass {
    Integer,
    Real,
    Text,
    Blob,
}

/// A value as SQLite hands it out. A float is kept as its bit pattern.
#[derive(Debug, Clone, PartialEq, Eq)]
pub enum SqliteCell {
    Null,
    Integer(i64),
    Real(u64),
    Text(String),
    Blob(Vec<u8>),
}

/// A value of the type of its column.
#[derive(Debug, Clone, PartialEq, Eq)]
pub enum InlinedCell {
    Null,
    Int8(i8),
    Int16(i16),
    Int32(i32),
    Int64(i64),
    UInt8(u8),
    UInt16(u16),
    UInt32(u32),
    UInt64(u64),
    Boolean(bool),
    /// The bit pattern of a double that is still to be rounded to a float.
    Float32(u64),
    /// The bit pattern of a double.
    Float64(u64),
    Text(String),
    Blob(Vec<u8>),
    /// Text that is still to be read as a value of the type.
    Unread(String),
}

/// A column of a batch of inlined rows.
#[derive(Debug, Clone, PartialEq, Eq)]
pub enum InlinedColumn {
    /// The table does not have the column: every row gets the value that the
    /// column had before it was written.
    Missing,
    Cells(Vec<InlinedCell>),
}

/// How the values of a type are stored.
pub open spec fn storage_of(data_type: DataType) -> StorageClass {
    match data_type {
        DataType::Int8 | DataType::Int16 | DataType::Int32 | DataType::Int64 => {
            StorageClass::Integer
        },
        DataType::UInt8 | DataType::UInt16 | DataType::UInt32 => StorageClass::Integer,
        DataType::Boolean => StorageClass::Integer,
        DataType::Float32 | DataType::Float64 => StorageClass::Real,
        DataType::Binary | DataType::LargeBinary | DataType::BinaryView => StorageClass::Blob,
        DataType::FixedSizeBinary(size) => if size != 16 {
            StorageClass::Blob
        } else {
            StorageClass::Text
        },
        _ => StorageClass::Text,
    }
}

/// The storage class that a column of this type is fetched as.
pub fn storage_class(data_type: &DataType) -> (class: StorageClass)
    ensures
        class == storage_of(*data_type),
{
    match data_type {
        DataType::Int8 | DataType::Int16 | DataType::Int32 | DataType::Int64 => {
            StorageClass::Integer
        },
        DataType::UInt8 | DataType::UInt16 | DataType::UInt32 => StorageClass::Integer,
        DataType::Boolean => StorageClass::Integer,
        DataType::Float32 | DataType::Float64 => StorageClass::Real,
        DataType::Binary | DataType::LargeBinary | DataType::BinaryView => StorageClass::Blob,
        DataType::FixedSizeBinary(size) => {
            if *size != 16 {
                StorageClass::Blob
            } else {
                StorageClass::Text
            }
        },
        _ => StorageClass::Text,
    }
}

/// Whether a value was fetched as that storage class; `NULL` fits each of them.
pub open spec fn is_stored_as(cell: SqliteCell, class: StorageClass) -> bool {
    match cell {
        SqliteCell::Null => true,
        SqliteCell::Integer(_) => class is Integer,
        SqliteCell::Real(_) => class is Real,
        SqliteCell::Text(_) => class is Text,
        SqliteCell::Blob(_) => class is Blob,
    }
}

/// What the standard library says of text that is no `u64`.
pub uninterp spec fn u64_error_text(text: Seq<char>) -> Seq<char>;

/// `str::parse::<u64>` fails on text that is no `u64`; what its error says
/// depends on the text alone.
#[verifier::external_body]
fn explain_u64(text: &str) -> (message: String)
    requires
        u64_value(text@) is None,
    ensures
        message@ == u64_error_text(text@),
{
    match text.parse::<u64>() {
        Ok(value) => value.to_string(),
        Err(error) => error.to_string(),
    }
}

/// The error on text that is no `u64`.
pub open spec fn invalid_u64_text(name: Seq<char>, error: Seq<char>) -> Seq<char> {
    "invalid inlined UInt64 value for column '"@ + name + "': "@ + error
}

/// The error on a blob of the wrong size.
pub open spec fn wrong_size_text(name: Seq<char>, size: i32, was: nat) -> Seq<char> {
    "inlined data column '"@ + name + "' expected "@ + int_text(size as int) + " bytes, was "@
        + nat_text(was)
}

/// Whether `out` is what one value of a column converts to. An integer keeps the
/// low bits that its type has room for.
pub open spec fn cell_conversion(
    data_type: DataType,
    name: Seq<char>,
    cell: SqliteCell,
    out: Result<InlinedCell, DuckLakeError>,
) -> bool {
    match (data_type, cell) {
        (_, SqliteCell::Null) => out == Ok::<InlinedCell, DuckLakeError>(InlinedCell::Null),
        (DataType::Int8, SqliteCell::Integer(v)) => out == Ok::<InlinedCell, DuckLakeError>(
            InlinedCell::Int8(v as i8),
        ),
        (DataType::Int16, SqliteCell::Integer(v)) => out == Ok::<InlinedCell, DuckLakeError>(
            InlinedCell::Int16(v as i16),
        ),
        (DataType::Int32, SqliteCell::Integer(v)) => out == Ok::<InlinedCell, DuckLakeError>(
            InlinedCell::Int32(v as i32),
        ),
        (DataType::Int64, SqliteCell::Integer(v)) => out == Ok::<InlinedCell, DuckLakeError>(
            InlinedCell::Int64(v),
        ),
        (DataType::UInt8, SqliteCell::Integer(v)) => out == Ok::<InlinedCell, DuckLakeError>(
            InlinedCell::UInt8(v as u8),
        ),
        (DataType::UInt16, SqliteCell::Integer(v)) => out == Ok::<InlinedCell, DuckLakeError>(
            InlinedCell::UInt16(v as u16),
        ),
        (DataType::UInt32, SqliteCell::Integer(v)) => out == Ok::<InlinedCell, DuckLakeError>(
            InlinedCell::UInt32(v as u32),
        ),
        (DataType::Boolean, SqliteCell::Integer(v)) => out == Ok::<InlinedCell, DuckLakeError>(
            InlinedCell::Boolean(v != 0),
        ),
        (DataType::UInt64, SqliteCell::Text(v)) => match u64_value(v@) {
            Some(value) => out == Ok::<InlinedCell, DuckLakeError>(InlinedCell::UInt64(value)),
            None => invalid_config(out, invalid_u64_text(name, u64_error_text(v@))),
        },
        (DataType::Float32, SqliteCell::Real(v)) => out == Ok::<InlinedCell, DuckLakeError>(
            InlinedCell::Float32(v),
        ),
        (DataType::Float64, SqliteCell::Real(v)) => out == Ok::<InlinedCell, DuckLakeError>(
            InlinedCell::Float64(v),
        ),
        (DataType::Utf8, SqliteCell::Text(v)) => out matches Ok(InlinedCell::Text(text)) && text@
            == v@,
        (DataType::Utf8View, SqliteCell::Text(v)) => out matches Ok(InlinedCell::Text(text))
            && text@ == v@,
        (DataType::FixedSizeBinary(size), SqliteCell::Blob(v)) => if v@.len() == size {
            out matches Ok(InlinedCell::Blob(bytes)) && bytes@ == v@
        } else {
            invalid_config(out, wrong_size_text(name, size, v@.len()))
        },
        (_, SqliteCell::Blob(v)) => out matches Ok(InlinedCell::Blob(bytes)) && bytes@ == v@,
        (_, SqliteCell::Text(v)) => out matches Ok(InlinedCell::Unread(text)) && text@ == v@,
        _ => false,
    }
}

fn convert_cell(data_type: &DataType, name: &str, cell: &SqliteCell) -> (out: Result<
    InlinedCell,
    DuckLakeError,
>)
    requires
        is_stored_as(*cell, storage_of(*data_type)),
    ensures
        cell_conversion(*data_type, name@, *cell, out),
{
    match (data_type, cell) {
        (_, SqliteCell::Null) => Ok(InlinedCell::Null),
        (DataType::Int8, SqliteCell::Integer(v)) => Ok(
            InlinedCell::Int8(#[verifier::truncate] (*v as i8)),
        ),
        (DataType::Int16, SqliteCell::Integer(v)) => Ok(
            InlinedCell::Int16(#[verifier::truncate] (*v as i16)),
        ),
        (DataType::Int32, SqliteCell::Integer(v)) => Ok(
            InlinedCell::Int32(#[verifier::truncate] (*v as i32)),
        ),
        (DataType::Int64, SqliteCell::Integer(v)) => Ok(InlinedCell::Int64(*v)),
        (DataType::UInt8, SqliteCell::Integer(v)) => Ok(
            InlinedCell::UInt8(#[verifier::truncate] (*v as u8)),
        ),
        (DataType::UInt16, SqliteCell::Integer(v)) => Ok(
            InlinedCell::UInt16(#[verifier::truncate] (*v as u16)),
        ),
        (DataType::UInt32, SqliteCell::Integer(v)) => Ok(
            InlinedCell::UInt32(#[verifier::truncate] (*v as u32)),
        ),
        (DataType::Boolean, SqliteCell::Integer(v)) => Ok(InlinedCell::Boolean(*v != 0)),
        (DataType::UInt64, SqliteCell::Text(v)) => match parse_u64(v.as_str()) {
            Some(value) => Ok(InlinedCell::UInt64(value)),
            None => {
                let error = explain_u64(v.as_str());
                let mut message = "invalid inlined UInt64 value for column '".to_string();
                message.append(name);
                message.append("': ");
                message.append(error.as_str());
                Err(DuckLakeError::InvalidConfig(message))
            },
        },
        (DataType::Float32, SqliteCell::Real(v)) => Ok(InlinedCell::Float32(*v)),
        (DataType::Float64, SqliteCell::Real(v)) => Ok(InlinedCell::Float64(*v)),
        (DataType::Utf8, SqliteCell::Text(v)) => Ok(InlinedCell::Text(v.clone())),
        (DataType::Utf8View, SqliteCell::Text(v)) => Ok(InlinedCell::Text(v.clone())),
        (DataType::FixedSizeBinary(size), SqliteCell::Blob(v)) => {
            if *size >= 0 && v.len() == *size as usize {
                Ok(InlinedCell::Blob(v.clone()))
            } else {
                let mut message = "inlined data column '".to_string();
                message.append(name);
                message.append("' expected ");
                push_i64(&mut message, *size as i64);
                message.append(" bytes, was ");
                push_u64(&mut message, v.len() as u64);
                Err(DuckLakeError::InvalidConfig(message))
            }
        },
        (_, SqliteCell::Blob(v)) => Ok(InlinedCell::Blob(v.clone())),
        (_, SqliteCell::Text(v)) => Ok(InlinedCell::Unread(v.clone())),
        _ => Ok(InlinedCell::Null),
    }
}

/// Whether `out` is what the column `name` holds: nothing where the table does not
/// have it, else the conversion of each value, or the error of the first that
/// cannot be converted.
pub open spec fn column_conversion(
    data_type: DataType,
    name: Seq<char>,
    present: Seq<Seq<char>>,
    cells: Seq<SqliteCell>,
    out: Result<InlinedColumn, DuckLakeError>,
) -> bool {
    if !present.contains(name) {
        out == Ok::<InlinedColumn, DuckLakeError>(InlinedColumn::Missing)
    } else {
        match out {
            Ok(InlinedColumn::Missing) => false,
            Ok(InlinedColumn::Cells(converted)) => {
                &&& converted@.len() == cells.len()
                &&& forall|i: int|
                    0 <= i < cells.len() ==> cell_conversion(
                        data_type,
                        name,
                        #[trigger] cells[i],
                        Ok(converted@[i]),
                    )
            },
            Err(error) => exists|i: int|
                0 <= i < cells.len() && #[trigger] is_first_refused(
                    data_type,
                    name,
                    cells,
                    i,
                    error,
                ),
        }
    }
}

/// Whether the `i`th value is the first that cannot be converted, with that error.
pub open spec fn is_first_refused(
    data_type: DataType,
    name: Seq<char>,
    cells: Seq<SqliteCell>,
    i: int,
    error: DuckLakeError,
) -> bool {
    &&& cell_conversion(data_type, name, cells[i], Err(error))
    &&& forall|j: int| 0 <= j < i ==> is_convertible(data_type, name, #[trigger] cells[j])
}

/// Whether a value can be converted.
pub open spec fn is_convertible(data_type: DataType, name: Seq<char>, cell: SqliteCell) -> bool {
    exists|converted: InlinedCell|
        #[trigger] cell_conversion(data_type, name, cell, Ok(converted))
}

/// Converts the column `name` of a batch of inlined rows. `present` are the columns
/// that the table has.
pub fn inlined_column(
    data_type: &DataType,
    name: &str,
    present: &Vec<String>,
    cells: &Vec<SqliteCell>,
) -> (out: Result<InlinedColumn, DuckLakeError>)
    requires
        forall|i: int|
            0 <= i < cells@.len() ==> is_stored_as(#[trigger] cells@[i], storage_of(*data_type)),
    ensures
        column_conversion(*data_type, name@, views(present@), cells@, out),
{
    if !contains_name(present, name) {
        return Ok(InlinedColumn::Missing);
    }
    let mut converted: Vec<InlinedCell> = Vec::new();
    let mut i: usize = 0;
    while i < cells.len()
        invariant
            views(present@).contains(name@),
            forall|i: int|
                0 <= i < cells@.len() ==> is_stored_as(
                    #[trigger] cells@[i],
                    storage_of(*data_type),
                ),
            i <= cells@.len(),
            converted@.len() == i,
            forall|j: int|
                0 <= j < i ==> cell_conversion(
                    *data_type,
                    name@,
                    #[trigger] cells@[j],
                    Ok(converted@[j]),
                ),
        decreases cells@.len() - i,
    {
        match convert_cell(data_type, name, &cells[i]) {
            Ok(value) => {
                converted.push(value);
            },
            Err(error) => {
                assert(is_first_refused(*data_type, name@, cells@, i as int, error));
                return Err(error);
            },
        }
        i = i + 1;
    }
    Ok(InlinedColumn::Cells(converted))
}

/// The error on text that is no value of the type of its column.
pub fn cannot_decode_text(name: &str, data_type: &str, value: &str, remediation: &str) -> (out:
    String)
    ensures
        out@ == "inlined data column '"@ + name@ + "' type "@ + data_type@ + " cannot decode '"@
            + value@ + "'; "@ + remediation@,
{
    let mut out = "inlined data column '".to_string();
    out.append(name);
    out.append("' type ");
    out.append(data_type);
    out.append(" cannot decode '");
    out.append(value);
    out.append("'; ");
    out.append(remediation);
    out
}

// ---------------------------------------------------------------------------
// What is stored is read back
// ---------------------------------------------------------------------------

/// How the values of each type are stored: whole numbers and booleans as integers,
/// floats as reals, bytes as blobs, and all else, among it what does not fit an integer
/// of the catalog, as text. A value of a type is fetched in the class that it is stored
/// in, and in no other.
pub proof fn lemma_storage_classes(
    data_type: DataType,
    integer: i64,
    bits: u64,
    text: String,
    blob: Vec<u8>,
)
    ensures
        is_stored_as(SqliteCell::Null, storage_of(data_type)),
        is_stored_as(SqliteCell::Integer(integer), storage_of(data_type)) <==> (data_type is Boolean
            || data_type is Int8 || data_type is Int16 || data_type is Int32 || data_type is Int64
            || data_type is UInt8 || data_type is UInt16 || data_type is UInt32),
        is_stored_as(SqliteCell::Real(bits), storage_of(data_type)) <==> (data_type is Float32
            || data_type is Float64),
        is_stored_as(SqliteCell::Blob(blob), storage_of(data_type)) <==> (data_type is Binary
            || data_type is LargeBinary || data_type is BinaryView || (
        data_type matches DataType::FixedSizeBinary(size) && size != 16)),
        is_stored_as(SqliteCell::Text(text), storage_of(data_type)) <==> !(data_type is Boolean
            || data_type is Int8 || data_type is Int16 || data_type is Int32 || data_type is Int64
            || data_type is UInt8 || data_type is UInt16 || data_type is UInt32
            || data_type is Float32 || data_type is Float64 || data_type is Binary
            || data_type is LargeBinary || data_type is BinaryView || (
        data_type matches DataType::FixedSizeBinary(size) && size != 16)),
{
}

/// A column that the table has is read in full, value by value and in order, or not at
/// all; one that it does not have is missing.
pub proof fn lemma_column_is_whole(
    data_type: DataType,
    name: Seq<char>,
    present: Seq<Seq<char>>,
    cells: Seq<SqliteCell>,
    out: Result<InlinedColumn, DuckLakeError>,
)
    requires
        column_conversion(data_type, name, present, cells, out),
    ensures
        out == Ok::<InlinedColumn, DuckLakeError>(InlinedColumn::Missing) <==> !(exists|k: int|
            0 <= k < present.len() && #[trigger] present[k] == name),
        out matches Ok(InlinedColumn::Cells(values)) ==> values@.len() == cells.len(),
{
    if present.contains(name) {
        let k = choose|k: int| 0 <= k < present.len() && present[k] == name;
        assert(present[k] == name);
    }
}

/// `NULL` is read as null, whatever the type, and nothing else is.
pub proof fn lemma_nulls_are_read_back(
    data_type: DataType,
    name: Seq<char>,
    present: Seq<Seq<char>>,
    cells: Seq<SqliteCell>,
    values: Vec<InlinedCell>,
    i: int,
)
    requires
        column_conversion(data_type, name, present, cells, Ok(InlinedColumn::Cells(values))),
        0 <= i < cells.len(),
    ensures
        cells[i] is Null <==> values@[i] is Null,
{
    assert(cell_conversion(data_type, name, cells[i], Ok(values@[i])));
}

/// Whole numbers are read as the numbers that were stored. A stored `1` is true and a
/// stored `0` false, and every other integer is true as well.
pub proof fn lemma_integers_are_read_back(
    data_type: DataType,
    name: Seq<char>,
    present: Seq<Seq<char>>,
    cells: Seq<SqliteCell>,
    values: Vec<InlinedCell>,
    i: int,
    stored: i64,
)
    requires
        column_conversion(data_type, name, present, cells, Ok(InlinedColumn::Cells(values))),
        0 <= i < cells.len(),
        cells[i] == SqliteCell::Integer(stored),
    ensures
        data_type is Boolean ==> (values@[i] matches InlinedCell::Boolean(value) && (value <==> stored
            != 0)),
        data_type is Boolean && stored == 1 ==> values@[i] == InlinedCell::Boolean(true),
        data_type is Boolean && stored == 0 ==> values@[i] == InlinedCell::Boolean(false),
        data_type is Int8 ==> (values@[i] matches InlinedCell::Int8(value) && (-128 <= stored <= 127
            ==> value == stored)),
        data_type is Int16 ==> (values@[i] matches InlinedCell::Int16(value) && (-32768 <= stored
            <= 32767 ==> value == stored)),
        data_type is Int32 ==> (values@[i] matches InlinedCell::Int32(value) && (-2147483648
            <= stored <= 2147483647 ==> value == stored)),
        data_type is Int64 ==> (values@[i] matches InlinedCell::Int64(value) && value == stored),
        data_type is UInt8 ==> (values@[i] matches InlinedCell::UInt8(value) && (0 <= stored <= 255
            ==> value == stored)),
        data_type is UInt16 ==> (values@[i] matches InlinedCell::UInt16(value) && (0 <= stored
            <= 65535 ==> value == stored)),
        data_type is UInt32 ==> (values@[i] matches InlinedCell::UInt32(value) && (0 <= stored
            <= 4294967295 ==> value == stored)),
{
    assert(cell_conversion(data_type, name, cells[i], Ok(values@[i])));
}

/// A whole number that its type has no room for keeps its low bits.
pub proof fn lemma_integers_keep_low_bits(
    data_type: DataType,
    name: Seq<char>,
    present: Seq<Seq<char>>,
    cells: Seq<SqliteCell>,
    values: Vec<InlinedCell>,
    i: int,
    stored: i64,
)
    requires
        column_conversion(data_type, name, present, cells, Ok(InlinedColumn::Cells(values))),
        0 <= i < cells.len(),
        cells[i] == SqliteCell::Integer(stored),
    ensures
        data_type is Int8 ==> (values@[i] matches InlinedCell::Int8(value) && (stored - value) % 256
            == 0),
        data_type is Int16 ==> (values@[i] matches InlinedCell::Int16(value) && (stored - value)
            % 65536 == 0),
        data_type is Int32 ==> (values@[i] matches InlinedCell::Int32(value) && (stored - value)
            % 4294967296 == 0),
        data_type is UInt8 ==> (values@[i] matches InlinedCell::UInt8(value) && (stored - value)
            % 256 == 0),
        data_type is UInt16 ==> (values@[i] matches InlinedCell::UInt16(value) && (stored - value)
            % 65536 == 0),
        data_type is UInt32 ==> (values@[i] matches InlinedCell::UInt32(value) && (stored - value)
            % 4294967296 == 0),
{
    assert(cell_conversion(data_type, name, cells[i], Ok(values@[i])));
    assert((stored - (stored as i8)) % 256 == 0) by (bit_vector);
    assert((stored - (stored as i16)) % 65536 == 0) by (bit_vector);
    assert((stored - (stored as i32)) % 4294967296 == 0) by (bit_vector);
    assert((stored - (stored as u8)) % 256 == 0) by (bit_vector);
    assert((stored - (stored as u16)) % 65536 == 0) by (bit_vector);
    assert((stored - (stored as u32)) % 4294967296 == 0) by (bit_vector);
}

/// Floats keep their bits, text its characters and blobs their bytes. A large unsigned
/// number is read from its decimal text.
pub proof fn lemma_other_values_are_read_back(
    data_type: DataType,
    name: Seq<char>,
    present: Seq<Seq<char>>,
    cells: Seq<SqliteCell>,
    values: Vec<InlinedCell>,
    i: int,
    n: u64,
)
    requires
        column_conversion(data_type, name, present, cells, Ok(InlinedColumn::Cells(values))),
        0 <= i < cells.len(),
        is_stored_as(cells[i], storage_of(data_type)),
    ensures
        data_type is Float32 ==> (cells[i] matches SqliteCell::Real(bits) ==> values@[i]
            == InlinedCell::Float32(bits)),
        data_type is Float64 ==> (cells[i] matches SqliteCell::Real(bits) ==> values@[i]
            == InlinedCell::Float64(bits)),
        data_type is UInt64 ==> (cells[i] matches SqliteCell::Text(text) ==> (values@[i] is UInt64
            && (text@ == int_text(n as int) ==> values@[i] == InlinedCell::UInt64(n)))),
        data_type is Utf8 || data_type is Utf8View ==> (cells[i] matches SqliteCell::Text(text)
            ==> (values@[i] matches InlinedCell::Text(kept) && kept@ == text@)),
        !(data_type is Utf8 || data_type is Utf8View || data_type is UInt64) ==> (
        cells[i] matches SqliteCell::Text(text) ==> (values@[i] matches InlinedCell::Unread(kept)
            && kept@ == text@)),
        cells[i] matches SqliteCell::Blob(bytes) ==> (values@[i] matches InlinedCell::Blob(kept)
            && kept@ == bytes@),
{
    assert(cell_conversion(data_type, name, cells[i], Ok(values@[i])));
    crate::scan::lemma_number_is_read_back(n as int);
}

/// A column is refused only for a value that is none of its type: text that spells no
/// unsigned number of 64 bits, or a blob of the wrong size. Everything else is read.
pub proof fn lemma_refused_columns(
    data_type: DataType,
    name: Seq<char>,
    present: Seq<Seq<char>>,
    cells: Seq<SqliteCell>,
    error: DuckLakeError,
)
    requires
        column_conversion(data_type, name, present, cells, Err(error)),
        forall|i: int| 0 <= i < cells.len() ==> is_stored_as(#[trigger] cells[i], storage_of(data_type)),
    ensures
        exists|i: int|
            0 <= i < cells.len() && match #[trigger] cells[i] {
                SqliteCell::Text(text) => data_type is UInt64 && (forall|n: u64|
                    text@ != #[trigger] int_text(n as int)),
                SqliteCell::Blob(bytes) => data_type matches DataType::FixedSizeBinary(size)
                    && bytes@.len() != size,
                _ => false,
            },
{
    let i = choose|i: int|
        0 <= i < cells.len() && #[trigger] is_first_refused(data_type, name, cells, i, error);
    assert(is_stored_as(cells[i], storage_of(data_type)));
    if let SqliteCell::Text(text) = cells[i] {
        assert forall|n: u64| text@ != #[trigger] int_text(n as int) by {
            crate::scan::lemma_number_is_read_back(n as int);
        }
    }
}

/// A value that is none of its type refuses the column.
pub proof fn lemma_bad_values_refuse(
    data_type: DataType,
    name: Seq<char>,
    present: Seq<Seq<char>>,
    cells: Seq<SqliteCell>,
    out: Result<InlinedColumn, DuckLakeError>,
    i: int,
)
    requires
        column_conversion(data_type, name, present, cells, out),
        present.contains(name),
        0 <= i < cells.len(),
        match cells[i] {
            SqliteCell::Text(text) => data_type is UInt64 && exists|k: int|
                0 <= k < text@.len() && !('0' <= #[trigger] text@[k] <= '9' || (k == 0 && text@[k]
                    == '+')),
            SqliteCell::Blob(bytes) => data_type matches DataType::FixedSizeBinary(size)
                && bytes@.len() != size,
            _ => false,
        },
    ensures
        out is Err,
{
    if let Ok(InlinedColumn::Cells(values)) = out {
        assert(cell_conversion(data_type, name, cells[i], Ok(values@[i])));
        if let SqliteCell::Text(text) = cells[i] {
            let k = choose|k: int|
                0 <= k < text@.len() && !('0' <= #[trigger] text@[k] <= '9' || (k == 0 && text@[k]
                    == '+'));
            if text@.len() > 0 && text@[0] == '+' {
                assert(text@.skip(1)[k - 1] == text@[k]);
            }
            assert(u64_value(text@) is None);
        }
    }
}

} // verus!
