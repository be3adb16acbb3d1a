//! Reading the values of inlined rows that DuckDB hands out.
//!
//! A value comes with the variant that DuckDB gave it and is decoded as the type
//! of its column. Nothing is coerced: a variant that does not belong to the type
//! is refused. The outcome is a tree, because a list, struct or map is decoded
//! element by element; `first_refusal` gives the part for which the whole is refused.

use vstd::prelude::*;

use crate::metadata::clone_text;
use crate::order::opt_view;
use crate::text::{int_text, push_i64, same_text};
use crate::types::{DataType, Field, TimeUnit};

verus! {

/// A value as DuckDB hands it out. A float is kept as its bit pattern and a
/// decimal as its text.
#[derive(Debug, PartialEq, Eq)]
pub enum DuckdbValue {
    Null,
    Boolean(bool),
    TinyInt(i8),
    SmallInt(i16),
    Int(i32),
    BigInt(i64),
    UTinyInt(u8),
    USmallInt(u16),
    UInt(u32),
    UBigInt(u64),
    Float(u32),
    Double(u64),
    Decimal(String),
    Timestamp(TimeUnit, i64),
    /// The text of a whole column: bytes that need not be UTF-8.
    RawText(Vec<u8>),
    /// Text inside a list, struct or map.
    Text(String),
    Blob(Vec<u8>),
    Date32(i32),
    Time64(TimeUnit, i64),
    Interval { months: i32, days: i32, nanos: i64 },
    List(Vec<DuckdbValue>),
    Array(Vec<DuckdbValue>),
    Struct(Vec<(String, DuckdbValue)>),
    MapEntries(Vec<(DuckdbValue, DuckdbValue)>),
    /// A variant that no column type is read from.
    Other,
}

/// What a value was decoded as.
#[derive(Debug, PartialEq, Eq)]
pub enum Decoded {
    /// The null of the type.
    Null,
    Boolean(bool),
    Int8(i8),
    Int16(i16),
    Int32(i32),
    Int64(i64),
    UInt8(u8),
    UInt16(u16),
    UInt32(u32),
    UInt64(u64),
    /// The bit pattern of a float.
    Float32(u32),
    /// The bit pattern of a float.
    Float64(u64),
    /// Text that is still to be read as a value of the type, and the message of
    /// the error where it is not one.
    Unread { text: String, otherwise: String },
    Date32(i32),
    Time64(TimeUnit, i64),
    Timestamp(TimeUnit, i64, Option<String>),
    Interval { months: i32, days: i32, nanos: i64 },
    Utf8(String),
    LargeUtf8(String),
    Utf8View(String),
    Binary(Vec<u8>),
    LargeBinary(Vec<u8>),
    BinaryView(Vec<u8>),
    FixedSizeBinary(i32, Vec<u8>),
    List(Vec<Decoded>),
    /// The fields of a struct, in the order of its type.
    Struct(Vec<Decoded>),
    MapEntries(Vec<(Decoded, Decoded)>),
    /// The message of an error.
    Refused(String),
    /// A nested value of a variant that its type is not read from.
    Mismatch,
}

// ---------------------------------------------------------------------------
// Units of time
// ---------------------------------------------------------------------------

/// How many nanoseconds a unit lasts.
pub open spec fn unit_nanos(unit: TimeUnit) -> int {
    match unit {
        TimeUnit::Second => 1_000_000_000,
        TimeUnit::Millisecond => 1_000_000,
        TimeUnit::Microsecond => 1_000,
        TimeUnit::Nanosecond => 1,
    }
}

/// `value`, counted in another unit: rounded towards zero where that is coarser.
pub open spec fn converted_time(value: int, from: TimeUnit, to: TimeUnit) -> int {
    let nanos = value * unit_nanos(from);
    if nanos >= 0 {
        nanos / unit_nanos(to)
    } else {
        -((-nanos) / unit_nanos(to))
    }
}

/// `converted_time`, where it fits.
pub open spec fn time_in(value: i64, from: TimeUnit, to: TimeUnit) -> Option<i64> {
    let converted = converted_time(value as int, from, to);
    if i64::MIN <= converted <= i64::MAX {
        Some(converted as i64)
    } else {
        None
    }
}

fn nanos_of(unit: TimeUnit) -> (nanos: i128)
    ensures
        nanos == unit_nanos(unit),
        1 <= nanos <= 1_000_000_000,
{
    match unit {
        TimeUnit::Second => 1_000_000_000,
        TimeUnit::Millisecond => 1_000_000,
        TimeUnit::Microsecond => 1_000,
        TimeUnit::Nanosecond => 1,
    }
}

/// Counts `value` in another unit; `None` where the count does not fit.
pub fn convert_time(value: i64, from: TimeUnit, to: TimeUnit) -> (converted: Option<i64>)
    ensures
        converted == time_in(value, from, to),
{
    let from_nanos: i128 = nanos_of(from);
    let to_nanos: i128 = nanos_of(to);
    assert(-0x8000_0000_0000_0000 * 1_000_000_000 <= value * from_nanos
        <= 0x8000_0000_0000_0000 * 1_000_000_000) by (nonlinear_arith)
        requires
            1 <= from_nanos <= 1_000_000_000,
            -0x8000_0000_0000_0000 <= value <= 0x7fff_ffff_ffff_ffff,
    ;
    let nanos: i128 = value as i128 * from_nanos;
    let converted: i128 = if nanos >= 0 {
        nanos / to_nanos
    } else {
        -((-nanos) / to_nanos)
    };
    if i64::MIN as i128 <= converted && converted <= i64::MAX as i128 {
        Some(converted as i64)
    } else {
        None
    }
}

/// A count that is converted to a unit at least as fine, and fits there, comes
/// back unchanged.
pub proof fn lemma_convert_time_back(value: i64, from: TimeUnit, to: TimeUnit)
    requires
        unit_nanos(to) <= unit_nanos(from),
        time_in(value, from, to) is Some,
    ensures
        time_in(time_in(value, from, to)->0, to, from) == Some(value),
{
    let (fine, coarse) = (unit_nanos(to), unit_nanos(from));
    let ratio = coarse / fine;
    assert(coarse == ratio * fine && ratio >= 1) by (nonlinear_arith)
        requires
            ratio == coarse / fine,
            fine <= coarse,
            fine == 1 || fine == 1_000 || fine == 1_000_000 || fine == 1_000_000_000,
            coarse == 1 || coarse == 1_000 || coarse == 1_000_000 || coarse == 1_000_000_000,
    ;
    let size = if value >= 0 {
        value as int
    } else {
        -value
    };
    assert(value >= 0 ==> value * coarse >= 0) by (nonlinear_arith)
        requires
            coarse >= 1,
    ;
    assert(value < 0 ==> value * coarse < 0) by (nonlinear_arith)
        requires
            coarse >= 1,
    ;
    assert(-(value * coarse) == -value * coarse) by (nonlinear_arith);
    assert(size * coarse == fine * (size * ratio)) by (nonlinear_arith)
        requires
            coarse == ratio * fine,
    ;
    vstd::arithmetic::div_mod::lemma_div_multiples_vanish(size * ratio, fine);
    vstd::arithmetic::div_mod::lemma_div_multiples_vanish(size, coarse);
    let there = converted_time(value as int, from, to);
    assert(value >= 0 ==> there == size * ratio);
    assert(value < 0 ==> there == -(size * ratio));
    assert(there * fine == value * coarse) by (nonlinear_arith)
        requires
            coarse == ratio * fine,
            value >= 0 ==> there == value * ratio,
            value < 0 ==> there == -(-value * ratio),
    ;
    assert(size * coarse == coarse * size) by (nonlinear_arith);
}

fn unit_text(unit: TimeUnit) -> (text: &'static str)
    ensures
        text@ == unit_name(unit),
{
    match unit {
        TimeUnit::Second => "Second",
        TimeUnit::Millisecond => "Millisecond",
        TimeUnit::Microsecond => "Microsecond",
        TimeUnit::Nanosecond => "Nanosecond",
    }
}

/// The name of a unit.
pub open spec fn unit_name(unit: TimeUnit) -> Seq<char> {
    match unit {
        TimeUnit::Second => "Second"@,
        TimeUnit::Millisecond => "Millisecond"@,
        TimeUnit::Microsecond => "Microsecond"@,
        TimeUnit::Nanosecond => "Nanosecond"@,
    }
}

/// Whether a time of day is kept in this unit.
pub open spec fn is_time_unit(unit: TimeUnit) -> bool {
    unit is Microsecond || unit is Nanosecond
}

// ---------------------------------------------------------------------------
// Text
// ---------------------------------------------------------------------------

/// What the standard library says of bytes that are not UTF-8.
pub uninterp spec fn utf8_error_text(bytes: Seq<u8>) -> Seq<char>;

/// `std::str::from_utf8` gives the text that the bytes encode where they are
/// UTF-8, and an error where they are not; what that error says depends on the
/// bytes alone.
#[verifier::external_body]
fn read_utf8(bytes: &Vec<u8>) -> (text: Result<String, String>)
    ensures
        match text {
            Ok(text) => vstd::utf8::valid_utf8(bytes@) && text@ == vstd::utf8::decode_utf8(bytes@),
            Err(message) => !vstd::utf8::valid_utf8(bytes@) && message@ == utf8_error_text(bytes@),
        },
{
    match std::str::from_utf8(bytes) {
        Ok(text) => Ok(text.to_owned()),
        Err(error) => Err(error.to_string()),
    }
}

/// The error on bytes of a column that are not UTF-8.
pub open spec fn invalid_utf8_text(column: Seq<char>, error: Seq<char>) -> Seq<char> {
    "inlined data for column '"@ + column + "' contains invalid UTF-8: "@ + error
}

/// Reads the text of a column. The error is the message to report.
pub fn decode_duckdb_text(value: &Vec<u8>, column: &str) -> (text: Result<String, String>)
    ensures
        match text {
            Ok(text) => vstd::utf8::valid_utf8(value@) && text@ == vstd::utf8::decode_utf8(value@),
            Err(message) => {
                &&& !vstd::utf8::valid_utf8(value@)
                &&& message@ == invalid_utf8_text(column@, utf8_error_text(value@))
            },
        },
{
    match read_utf8(value) {
        Ok(text) => Ok(text),
        Err(error) => {
            let mut out = "inlined data for column '".to_string();
            out.append(column);
            out.append("' contains invalid UTF-8: ");
            out.append(error.as_str());
            Err(out)
        },
    }
}

// ---------------------------------------------------------------------------
// Nested values
// ---------------------------------------------------------------------------

/// Whether the entries of every map inside a type hold a key and a value.
pub open spec fn maps_are_pairs(data_type: DataType) -> bool
    decreases data_type,
{
    match data_type {
        DataType::List(item) => maps_are_pairs(*item),
        DataType::LargeList(item) => maps_are_pairs(*item),
        DataType::FixedSizeList(item, _) => maps_are_pairs(*item),
        DataType::Struct(fields) => forall|i: int|
            0 <= i < fields@.len() ==> maps_are_pairs((#[trigger] fields@[i]).data_type),
        DataType::MapEntries(entries) => {
            &&& maps_are_pairs(*entries)
            &&& (*entries matches DataType::Struct(fields) ==> fields@.len() >= 2)
        },
        _ => true,
    }
}

/// Whether the entries of every map inside the types of fields hold a key and a value.
fn fields_have_map_pairs(fields: &Vec<Field>) -> (pairs: bool)
    ensures
        pairs == forall|i: int|
            0 <= i < fields@.len() ==> maps_are_pairs((#[trigger] fields@[i]).data_type),
    decreases fields@, 0int,
{
    let mut i: usize = 0;
    while i < fields.len()
        invariant
            i <= fields@.len(),
            forall|k: int| 0 <= k < i ==> maps_are_pairs((#[trigger] fields@[k]).data_type),
        decreases fields@.len() - i,
    {
        if !has_map_pairs(&fields[i].data_type) {
            return false;
        }
        i = i + 1;
    }
    true
}

/// Whether the entries of every map inside a type hold a key and a value.
pub fn has_map_pairs(data_type: &DataType) -> (pairs: bool)
    ensures
        pairs == maps_are_pairs(*data_type),
    decreases *data_type, 1int,
{
    match data_type {
        DataType::List(item) => has_map_pairs(item),
        DataType::LargeList(item) => has_map_pairs(item),
        DataType::FixedSizeList(item, _) => has_map_pairs(item),
        DataType::Struct(fields) => fields_have_map_pairs(fields),
        DataType::MapEntries(entries) => {
            let wide = match &**entries {
                DataType::Struct(fields) => fields.len() >= 2,
                _ => true,
            };
            wide && has_map_pairs(entries)
        },
        _ => true,
    }
}

/// Whether the `k`th value is the first of that name.
pub open spec fn is_first_named(
    values: Seq<(String, DuckdbValue)>,
    name: Seq<char>,
    k: int,
) -> bool {
    &&& 0 <= k < values.len()
    &&& values[k].0@ == name
    &&& forall|j: int| 0 <= j < k ==> (#[trigger] values[j]).0@ != name
}

/// Whether a value has that name.
pub open spec fn has_name(values: Seq<(String, DuckdbValue)>, name: Seq<char>) -> bool {
    exists|k: int| 0 <= k < values.len() && (#[trigger] values[k]).0@ == name
}

/// The error on a struct that lacks a field of its type.
pub open spec fn missing_field_text(column: Seq<char>, name: Seq<char>) -> Seq<char> {
    "inlined data column '"@ + column + "' DuckDB struct is missing field '"@ + name + "'"@
}

/// An error on a column: what stands before and behind its name.
pub open spec fn column_text(before: Seq<char>, column: Seq<char>, behind: Seq<char>) -> Seq<char> {
    before + column + behind
}

/// Whether `out` is the refusal with this message.
pub open spec fn refuses(out: Decoded, message: Seq<char>) -> bool {
    out matches Decoded::Refused(text) && text@ == message
}

/// A nested time of day.
pub open spec fn nested_time(
    column: Seq<char>,
    from: TimeUnit,
    value: i64,
    to: TimeUnit,
    out: Decoded,
) -> bool {
    match time_in(value, from, to) {
        None => refuses(
            out,
            column_text("inlined data column '"@, column, "' has out-of-range nested time"@),
        ),
        Some(time) => if is_time_unit(to) {
            out == Decoded::Time64(to, time)
        } else {
            refuses(
                out,
                "inlined data column '"@ + column + "' has unsupported nested time unit "@
                    + unit_name(to),
            )
        },
    }
}

/// A nested timestamp.
pub open spec fn nested_timestamp(
    column: Seq<char>,
    from: TimeUnit,
    value: i64,
    to: TimeUnit,
    zone: Option<String>,
    out: Decoded,
) -> bool {
    match time_in(value, from, to) {
        None => refuses(
            out,
            column_text("inlined data column '"@, column, "' has out-of-range nested timestamp"@),
        ),
        Some(time) => {
            &&& out matches Decoded::Timestamp(unit, count, kept)
            &&& unit == to
            &&& count == time
            &&& opt_view(kept) == opt_view(zone)
        },
    }
}

/// A nested decimal, whose text is still to be read.
pub open spec fn nested_decimal(column: Seq<char>, text: Seq<char>, out: Decoded) -> bool {
    &&& out matches Decoded::Unread { text: kept, otherwise }
    &&& kept@ == text
    &&& otherwise@ == "inlined data column '"@ + column + "' cannot decode nested decimal '"@ + text
        + "'"@
}

/// Whether `out` is what the simple value `value` inside a list, struct or map
/// decodes to.
pub open spec fn nested_leaf(
    value: DuckdbValue,
    data_type: DataType,
    column: Seq<char>,
    out: Decoded,
) -> bool {
    match (data_type, value) {
        (DataType::Boolean, DuckdbValue::Boolean(v)) => out == Decoded::Boolean(v),
        (DataType::Int8, DuckdbValue::TinyInt(v)) => out == Decoded::Int8(v),
        (DataType::Int16, DuckdbValue::SmallInt(v)) => out == Decoded::Int16(v),
        (DataType::Int32, DuckdbValue::Int(v)) => out == Decoded::Int32(v),
        (DataType::Int64, DuckdbValue::BigInt(v)) => out == Decoded::Int64(v),
        (DataType::UInt8, DuckdbValue::UTinyInt(v)) => out == Decoded::UInt8(v),
        (DataType::UInt16, DuckdbValue::USmallInt(v)) => out == Decoded::UInt16(v),
        (DataType::UInt32, DuckdbValue::UInt(v)) => out == Decoded::UInt32(v),
        (DataType::UInt64, DuckdbValue::UBigInt(v)) => out == Decoded::UInt64(v),
        (DataType::Float32, DuckdbValue::Float(v)) => out == Decoded::Float32(v),
        (DataType::Float64, DuckdbValue::Double(v)) => out == Decoded::Float64(v),
        (DataType::Decimal128(_, _), DuckdbValue::Decimal(v)) => nested_decimal(column, v@, out),
        (DataType::Date32, DuckdbValue::Date32(v)) => out == Decoded::Date32(v),
        (DataType::Time64(to), DuckdbValue::Time64(from, v)) => nested_time(
            column,
            from,
            v,
            to,
            out,
        ),
        (DataType::Timestamp(to, zone), DuckdbValue::Timestamp(from, v)) => nested_timestamp(
            column,
            from,
            v,
            to,
            zone,
            out,
        ),
        (DataType::Interval, DuckdbValue::Interval { months, days, nanos }) => out
            == (Decoded::Interval { months, days, nanos }),
        (DataType::Utf8, DuckdbValue::Text(v)) => out matches Decoded::Utf8(text) && text@ == v@,
        (DataType::LargeUtf8, DuckdbValue::Text(v)) => out matches Decoded::LargeUtf8(text) && text@
            == v@,
        (DataType::Utf8View, DuckdbValue::Text(v)) => out matches Decoded::Utf8View(text) && text@
            == v@,
        (DataType::Binary, DuckdbValue::Blob(v)) => out matches Decoded::Binary(bytes) && bytes@
            == v@,
        (DataType::LargeBinary, DuckdbValue::Blob(v)) => out matches Decoded::LargeBinary(bytes)
            && bytes@ == v@,
        (DataType::BinaryView, DuckdbValue::Blob(v)) => out matches Decoded::BinaryView(bytes)
            && bytes@ == v@,
        (DataType::FixedSizeBinary(size), DuckdbValue::Blob(v)) => if v@.len() == size {
            out matches Decoded::FixedSizeBinary(width, bytes) && width == size && bytes@ == v@
        } else {
            out is Mismatch
        },
        _ => out is Mismatch,
    }
}

/// Whether `out` is the list of what `values` decode to as `item`.
pub open spec fn list_decoding(
    values: Seq<DuckdbValue>,
    item: DataType,
    column: Seq<char>,
    out: Decoded,
) -> bool
    decreases values, 1int,
{
    &&& out matches Decoded::List(items)
    &&& items@.len() == values.len()
    &&& forall|i: int|
        0 <= i < values.len() ==> nested_decoding(values[i], item, column, #[trigger] items@[i])
}

/// Whether `out` holds, for each of `fields`, what the first of `values` with its
/// name decodes to, and an error where there is none.
pub open spec fn struct_decoding(
    values: Seq<(String, DuckdbValue)>,
    fields: Seq<Field>,
    column: Seq<char>,
    out: Decoded,
) -> bool
    decreases values, 1int,
{
    &&& out matches Decoded::Struct(items)
    &&& items@.len() == fields.len()
    &&& forall|i: int|
        0 <= i < fields.len() && !has_name(values, fields[i].name@) ==> refuses(
            #[trigger] items@[i],
            missing_field_text(column, fields[i].name@),
        )
    &&& forall|i: int, k: int|
        0 <= i < fields.len() && 0 <= k < values.len() && #[trigger] is_first_named(
            values,
            fields[i].name@,
            k,
        ) ==> nested_decoding(values[k].1, fields[i].data_type, column, items@[i])
}

/// Whether `out` holds what the keys and values of a map decode to.
pub open spec fn map_decoding(
    values: Seq<(DuckdbValue, DuckdbValue)>,
    key_type: DataType,
    value_type: DataType,
    column: Seq<char>,
    out: Decoded,
) -> bool
    decreases values, 1int,
{
    &&& out matches Decoded::MapEntries(items)
    &&& items@.len() == values.len()
    &&& forall|i: int|
        0 <= i < values.len() ==> nested_decoding(
            values[i].0,
            key_type,
            column,
            (#[trigger] items@[i]).0,
        )
    &&& forall|i: int|
        0 <= i < values.len() ==> nested_decoding(
            values[i].1,
            value_type,
            column,
            (#[trigger] items@[i]).1,
        )
}

/// Whether `out` is what `value`, which stands in a list, struct or map or is
/// one, decodes to as `data_type`.
pub open spec fn nested_decoding(
    value: DuckdbValue,
    data_type: DataType,
    column: Seq<char>,
    out: Decoded,
) -> bool
    decreases value, 0int,
{
    match (data_type, value) {
        (_, DuckdbValue::Null) => out is Null,
        (DataType::List(item), DuckdbValue::List(values)) => list_decoding(
            values@,
            *item,
            column,
            out,
        ),
        (DataType::LargeList(item), DuckdbValue::List(values)) => list_decoding(
            values@,
            *item,
            column,
            out,
        ),
        (DataType::FixedSizeList(item, _), DuckdbValue::List(values)) => list_decoding(
            values@,
            *item,
            column,
            out,
        ),
        (DataType::FixedSizeList(item, _), DuckdbValue::Array(values)) => list_decoding(
            values@,
            *item,
            column,
            out,
        ),
        (DataType::Struct(fields), DuckdbValue::Struct(values)) => struct_decoding(
            values@,
            fields@,
            column,
            out,
        ),
        (DataType::MapEntries(entries), DuckdbValue::MapEntries(values)) => match *entries {
            DataType::Struct(fields) => map_decoding(
                values@,
                fields@[0].data_type,
                fields@[1].data_type,
                column,
                out,
            ),
            _ => refuses(
                out,
                column_text("inlined data column '"@, column, "' has invalid Arrow map entries"@),
            ),
        },
        _ => nested_leaf(value, data_type, column, out),
    }
}

/// Decodes the items of a list.
fn decode_list(values: &Vec<DuckdbValue>, item: &DataType, column: &str) -> (out: Decoded)
    requires
        maps_are_pairs(*item),
    ensures
        list_decoding(values@, *item, column@, out),
    decreases values@, 1int,
{
    let mut items: Vec<Decoded> = Vec::new();
    let mut i: usize = 0;
    while i < values.len()
        invariant
            maps_are_pairs(*item),
            i <= values@.len(),
            items@.len() == i,
            forall|k: int|
                0 <= k < i ==> nested_decoding(values@[k], *item, column@, #[trigger] items@[k]),
        decreases values@.len() - i,
    {
        let decoded = duckdb_owned_scalar(&values[i], item, column);
        items.push(decoded);
        i = i + 1;
    }
    Decoded::List(items)
}

/// The first of `values` with that name.
fn find_named(values: &Vec<(String, DuckdbValue)>, name: &str) -> (found: Option<usize>)
    ensures
        match found {
            Some(k) => is_first_named(values@, name@, k as int),
            None => !has_name(values@, name@),
        },
{
    let mut k: usize = 0;
    while k < values.len()
        invariant
            k <= values@.len(),
            forall|j: int| 0 <= j < k ==> (#[trigger] values@[j]).0@ != name@,
        decreases values@.len() - k,
    {
        if same_text(values[k].0.as_str(), name) {
            return Some(k);
        }
        k = k + 1;
    }
    None
}

/// Decodes the fields of a struct.
fn decode_struct(values: &Vec<(String, DuckdbValue)>, fields: &Vec<Field>, column: &str) -> (out:
    Decoded)
    requires
        forall|i: int| 0 <= i < fields@.len() ==> maps_are_pairs((#[trigger] fields@[i]).data_type),
    ensures
        struct_decoding(values@, fields@, column@, out),
    decreases values@, 1int,
{
    let mut items: Vec<Decoded> = Vec::new();
    let mut i: usize = 0;
    while i < fields.len()
        invariant
            forall|i: int|
                0 <= i < fields@.len() ==> maps_are_pairs((#[trigger] fields@[i]).data_type),
            i <= fields@.len(),
            items@.len() == i,
            forall|j: int|
                0 <= j < i && !has_name(values@, fields@[j].name@) ==> refuses(
                    #[trigger] items@[j],
                    missing_field_text(column@, fields@[j].name@),
                ),
            forall|j: int, k: int|
                0 <= j < i && 0 <= k < values@.len() && #[trigger] is_first_named(
                    values@,
                    fields@[j].name@,
                    k,
                ) ==> nested_decoding(
                    values@[k].1,
                    fields@[j].data_type,
                    column@,
                    items@[j],
                ),
        decreases fields@.len() - i,
    {
        let name = fields[i].name.as_str();
        let decoded = match find_named(values, name) {
            Some(k) => duckdb_owned_scalar(&values[k].1, &fields[i].data_type, column),
            None => {
                let mut message = "inlined data column '".to_string();
                message.append(column);
                message.append("' DuckDB struct is missing field '");
                message.append(name);
                message.append("'");
                Decoded::Refused(message)
            },
        };
        items.push(decoded);
        i = i + 1;
    }
    Decoded::Struct(items)
}

/// Decodes the entries of a map.
fn decode_map(
    values: &Vec<(DuckdbValue, DuckdbValue)>,
    key_type: &DataType,
    value_type: &DataType,
    column: &str,
) -> (out: Decoded)
    requires
        maps_are_pairs(*key_type),
        maps_are_pairs(*value_type),
    ensures
        map_decoding(values@, *key_type, *value_type, column@, out),
    decreases values@, 1int,
{
    let mut items: Vec<(Decoded, Decoded)> = Vec::new();
    let mut i: usize = 0;
    while i < values.len()
        invariant
            maps_are_pairs(*key_type),
            maps_are_pairs(*value_type),
            i <= values@.len(),
            items@.len() == i,
            forall|k: int|
                0 <= k < i ==> nested_decoding(
                    values@[k].0,
                    *key_type,
                    column@,
                    (#[trigger] items@[k]).0,
                ),
            forall|k: int|
                0 <= k < i ==> nested_decoding(
                    values@[k].1,
                    *value_type,
                    column@,
                    (#[trigger] items@[k]).1,
                ),
        decreases values@.len() - i,
    {
        let key = duckdb_owned_scalar(&values[i].0, key_type, column);
        let value = duckdb_owned_scalar(&values[i].1, value_type, column);
        items.push((key, value));
        i = i + 1;
    }
    Decoded::MapEntries(items)
}

fn refuse(before: &str, column: &str, behind: &str) -> (out: Decoded)
    ensures
        refuses(out, column_text(before@, column@, behind@)),
{
    let mut message = before.to_string();
    message.append(column);
    message.append(behind);
    Decoded::Refused(message)
}

fn decode_nested_time(column: &str, from: TimeUnit, value: i64, to: TimeUnit) -> (out: Decoded)
    ensures
        nested_time(column@, from, value, to, out),
{
    match convert_time(value, from, to) {
        None => refuse("inlined data column '", column, "' has out-of-range nested time"),
        Some(time) => match to {
            TimeUnit::Microsecond | TimeUnit::Nanosecond => Decoded::Time64(to, time),
            _ => {
                let mut message = "inlined data column '".to_string();
                message.append(column);
                message.append("' has unsupported nested time unit ");
                message.append(unit_text(to));
                Decoded::Refused(message)
            },
        },
    }
}

fn decode_nested_timestamp(
    column: &str,
    from: TimeUnit,
    value: i64,
    to: TimeUnit,
    zone: &Option<String>,
) -> (out: Decoded)
    ensures
        nested_timestamp(column@, from, value, to, *zone, out),
{
    match convert_time(value, from, to) {
        None => refuse("inlined data column '", column, "' has out-of-range nested timestamp"),
        Some(time) => Decoded::Timestamp(to, time, clone_text(zone)),
    }
}

/// Decodes a simple value that stands in a list, struct or map.
fn decode_nested_leaf(value: &DuckdbValue, data_type: &DataType, column: &str) -> (out: Decoded)
    ensures
        nested_leaf(*value, *data_type, column@, out),
{
    match (data_type, value) {
        (DataType::Boolean, DuckdbValue::Boolean(v)) => Decoded::Boolean(*v),
        (DataType::Int8, DuckdbValue::TinyInt(v)) => Decoded::Int8(*v),
        (DataType::Int16, DuckdbValue::SmallInt(v)) => Decoded::Int16(*v),
        (DataType::Int32, DuckdbValue::Int(v)) => Decoded::Int32(*v),
        (DataType::Int64, DuckdbValue::BigInt(v)) => Decoded::Int64(*v),
        (DataType::UInt8, DuckdbValue::UTinyInt(v)) => Decoded::UInt8(*v),
        (DataType::UInt16, DuckdbValue::USmallInt(v)) => Decoded::UInt16(*v),
        (DataType::UInt32, DuckdbValue::UInt(v)) => Decoded::UInt32(*v),
        (DataType::UInt64, DuckdbValue::UBigInt(v)) => Decoded::UInt64(*v),
        (DataType::Float32, DuckdbValue::Float(v)) => Decoded::Float32(*v),
        (DataType::Float64, DuckdbValue::Double(v)) => Decoded::Float64(*v),
        (DataType::Decimal128(_, _), DuckdbValue::Decimal(v)) => {
            let mut otherwise = "inlined data column '".to_string();
            otherwise.append(column);
            otherwise.append("' cannot decode nested decimal '");
            otherwise.append(v.as_str());
            otherwise.append("'");
            Decoded::Unread { text: v.clone(), otherwise }
        },
        (DataType::Date32, DuckdbValue::Date32(v)) => Decoded::Date32(*v),
        (DataType::Time64(to), DuckdbValue::Time64(from, v)) => decode_nested_time(
            column,
            *from,
            *v,
            *to,
        ),
        (DataType::Timestamp(to, zone), DuckdbValue::Timestamp(from, v)) => decode_nested_timestamp(
            column,
            *from,
            *v,
            *to,
            zone,
        ),
        (DataType::Interval, DuckdbValue::Interval { months, days, nanos }) => Decoded::Interval {
            months: *months,
            days: *days,
            nanos: *nanos,
        },
        (DataType::Utf8, DuckdbValue::Text(v)) => Decoded::Utf8(v.clone()),
        (DataType::LargeUtf8, DuckdbValue::Text(v)) => Decoded::LargeUtf8(v.clone()),
        (DataType::Utf8View, DuckdbValue::Text(v)) => Decoded::Utf8View(v.clone()),
        (DataType::Binary, DuckdbValue::Blob(v)) => Decoded::Binary(v.clone()),
        (DataType::LargeBinary, DuckdbValue::Blob(v)) => Decoded::LargeBinary(v.clone()),
        (DataType::BinaryView, DuckdbValue::Blob(v)) => Decoded::BinaryView(v.clone()),
        (DataType::FixedSizeBinary(size), DuckdbValue::Blob(v)) => {
            if has_width(v, *size) {
                Decoded::FixedSizeBinary(*size, v.clone())
            } else {
                Decoded::Mismatch
            }
        },
        _ => Decoded::Mismatch,
    }
}

/// Whether there are exactly `size` bytes.
fn has_width(bytes: &Vec<u8>, size: i32) -> (fits: bool)
    ensures
        fits == (bytes@.len() == size),
{
    size >= 0 && bytes.len() == size as usize
}

/// Decodes a value that stands in a list, struct or map or is one.
pub fn duckdb_owned_scalar(value: &DuckdbValue, data_type: &DataType, column: &str) -> (out: Decoded)
    requires
        maps_are_pairs(*data_type),
    ensures
        nested_decoding(*value, *data_type, column@, out),
    decreases *value, 0int,
{
    match (data_type, value) {
        (_, DuckdbValue::Null) => Decoded::Null,
        (DataType::List(item), DuckdbValue::List(values)) => decode_list(values, item, column),
        (DataType::LargeList(item), DuckdbValue::List(values)) => decode_list(values, item, column),
        (DataType::FixedSizeList(item, _), DuckdbValue::List(values)) => decode_list(
            values,
            item,
            column,
        ),
        (DataType::FixedSizeList(item, _), DuckdbValue::Array(values)) => decode_list(
            values,
            item,
            column,
        ),
        (DataType::Struct(fields), DuckdbValue::Struct(values)) => decode_struct(
            values,
            fields,
            column,
        ),
        (DataType::MapEntries(entries), DuckdbValue::MapEntries(values)) => match &**entries {
            DataType::Struct(fields) => {
                assert(maps_are_pairs(**entries));
                decode_map(values, &fields[0].data_type, &fields[1].data_type, column)
            },
            _ => refuse("inlined data column '", column, "' has invalid Arrow map entries"),
        },
        _ => decode_nested_leaf(value, data_type, column),
    }
}

/// The error on a list, struct or map that cannot be put together as its type.
pub fn cannot_rebuild_text(column: &str, data_type: &str, what: &str) -> (out: String)
    ensures
        out@ == "inlined data column '"@ + column@ + "' cannot rebuild "@ + data_type@
            + " from DuckDB "@ + what@,
{
    let mut out = "inlined data column '".to_string();
    out.append(column);
    out.append("' cannot rebuild ");
    out.append(data_type);
    out.append(" from DuckDB ");
    out.append(what);
    out
}

/// The error on a nested value of a variant that its type is not read from.
pub fn nested_mismatch_text(column: &str, value: &str, data_type: &str) -> (out: String)
    ensures
        out@ == "inlined data column '"@ + column@ + "' DuckDB nested value "@ + value@
            + " cannot decode as "@ + data_type@,
{
    let mut out = "inlined data column '".to_string();
    out.append(column);
    out.append("' DuckDB nested value ");
    out.append(value);
    out.append(" cannot decode as ");
    out.append(data_type);
    out
}

// ---------------------------------------------------------------------------
// The first part that was refused
// ---------------------------------------------------------------------------

/// The parts of a decoded value that hold no others, in order; the key of a map entry
/// comes before its value.
pub open spec fn parts(decoded: Decoded) -> Seq<Decoded>
    decreases decoded, 1int,
{
    match decoded {
        Decoded::List(items) => parts_of_items(items@),
        Decoded::Struct(items) => parts_of_items(items@),
        Decoded::MapEntries(entries) => parts_of_entries(entries@),
        _ => seq![decoded],
    }
}

/// The parts of a sequence of decoded values, in order.
pub open spec fn parts_of_items(items: Seq<Decoded>) -> Seq<Decoded>
    decreases items, 0int,
{
    if items.len() == 0 {
        Seq::empty()
    } else {
        parts_of_items(items.subrange(0, items.len() - 1)) + parts(items[items.len() - 1])
    }
}

/// The parts of the entries of a map, in order.
pub open spec fn parts_of_entries(entries: Seq<(Decoded, Decoded)>) -> Seq<Decoded>
    decreases entries, 0int,
{
    if entries.len() == 0 {
        Seq::empty()
    } else {
        parts_of_entries(entries.subrange(0, entries.len() - 1)) + parts(
            entries[entries.len() - 1].0,
        ) + parts(entries[entries.len() - 1].1)
    }
}

/// Whether a part was refused.
pub open spec fn is_refusal(part: Decoded) -> bool {
    part is Refused || part is Mismatch
}

/// Whether the part at `i` is the first that was refused.
pub open spec fn is_first_refusal(parts: Seq<Decoded>, i: int) -> bool {
    &&& 0 <= i < parts.len()
    &&& is_refusal(parts[i])
    &&& forall|j: int| 0 <= j < i ==> !is_refusal(#[trigger] parts[j])
}

/// Whether `found` is the first of `parts` that was refused, if one was.
pub open spec fn finds_refusal(parts: Seq<Decoded>, found: Option<Decoded>) -> bool {
    match found {
        Some(part) => exists|i: int| #[trigger] is_first_refusal(parts, i) && parts[i] == part,
        None => forall|i: int| 0 <= i < parts.len() ==> !is_refusal(#[trigger] parts[i]),
    }
}

/// Parts behind those in which none was refused.
proof fn lemma_refusal_behind(front: Seq<Decoded>, behind: Seq<Decoded>, found: Option<Decoded>)
    requires
        finds_refusal(front, None),
        finds_refusal(behind, found),
    ensures
        finds_refusal(front + behind, found),
{
    match found {
        Some(part) => {
            let i = choose|i: int| #[trigger] is_first_refusal(behind, i) && behind[i] == part;
            assert(is_first_refusal(front + behind, front.len() + i));
        },
        None => {},
    }
}

/// Parts in front of others, one of which was refused.
proof fn lemma_refusal_before(front: Seq<Decoded>, behind: Seq<Decoded>, found: Decoded)
    requires
        finds_refusal(front, Some(found)),
    ensures
        finds_refusal(front + behind, Some(found)),
{
    let i = choose|i: int| #[trigger] is_first_refusal(front, i) && front[i] == found;
    assert(is_first_refusal(front + behind, i));
}

/// The parts of a sequence start with those of the start of it.
proof fn lemma_items_before(items: Seq<Decoded>, n: int, found: Decoded)
    requires
        0 <= n <= items.len(),
        finds_refusal(parts_of_items(items.take(n)), Some(found)),
    ensures
        finds_refusal(parts_of_items(items), Some(found)),
    decreases items.len(),
{
    if n < items.len() {
        let front = items.subrange(0, items.len() - 1);
        assert(front.take(n) =~= items.take(n));
        lemma_items_before(front, n, found);
        lemma_refusal_before(parts_of_items(front), parts(items[items.len() - 1]), found);
    } else {
        assert(items.take(n) =~= items);
    }
}

/// The parts of the entries of a map start with those of the start of them.
proof fn lemma_entries_before(entries: Seq<(Decoded, Decoded)>, n: int, found: Decoded)
    requires
        0 <= n <= entries.len(),
        finds_refusal(parts_of_entries(entries.take(n)), Some(found)),
    ensures
        finds_refusal(parts_of_entries(entries), Some(found)),
    decreases entries.len(),
{
    if n < entries.len() {
        let front = entries.subrange(0, entries.len() - 1);
        let last = entries[entries.len() - 1];
        assert(front.take(n) =~= entries.take(n));
        lemma_entries_before(front, n, found);
        lemma_refusal_before(parts_of_entries(front), parts(last.0), found);
        lemma_refusal_before(parts_of_entries(front) + parts(last.0), parts(last.1), found);
    } else {
        assert(entries.take(n) =~= entries);
    }
}

fn first_refusal_of_items(items: &Vec<Decoded>) -> (found: Option<&Decoded>)
    ensures
        match found {
            Some(part) => finds_refusal(parts_of_items(items@), Some(*part)),
            None => finds_refusal(parts_of_items(items@), None),
        },
    decreases items@, 0int,
{
    let mut i: usize = 0;
    while i < items.len()
        invariant
            i <= items@.len(),
            finds_refusal(parts_of_items(items@.take(i as int)), None),
        decreases items@.len() - i,
    {
        let found = first_refusal(&items[i]);
        let ghost front = parts_of_items(items@.take(i as int));
        proof {
            let next = items@.take(i + 1);
            assert(next.subrange(0, next.len() - 1) =~= items@.take(i as int));
            assert(next[next.len() - 1] == items@[i as int]);
            match found {
                Some(part) => {
                    lemma_refusal_behind(front, parts(items@[i as int]), Some(*part));
                    lemma_items_before(items@, i + 1, *part);
                },
                None => {
                    lemma_refusal_behind(front, parts(items@[i as int]), None);
                },
            }
        }
        if found.is_some() {
            return found;
        }
        i = i + 1;
    }
    assert(items@.take(items@.len() as int) =~= items@);
    None
}

fn first_refusal_of_entries(entries: &Vec<(Decoded, Decoded)>) -> (found: Option<&Decoded>)
    ensures
        match found {
            Some(part) => finds_refusal(parts_of_entries(entries@), Some(*part)),
            None => finds_refusal(parts_of_entries(entries@), None),
        },
    decreases entries@, 0int,
{
    let mut i: usize = 0;
    while i < entries.len()
        invariant
            i <= entries@.len(),
            finds_refusal(parts_of_entries(entries@.take(i as int)), None),
        decreases entries@.len() - i,
    {
        let ghost front = parts_of_entries(entries@.take(i as int));
        let ghost entry = entries@[i as int];
        proof {
            let next = entries@.take(i + 1);
            assert(next.subrange(0, next.len() - 1) =~= entries@.take(i as int));
            assert(next[next.len() - 1] == entry);
        }
        let key = first_refusal(&entries[i].0);
        if let Some(part) = key {
            proof {
                lemma_refusal_behind(front, parts(entry.0), Some(*part));
                lemma_refusal_before(front + parts(entry.0), parts(entry.1), *part);
                lemma_entries_before(entries@, i + 1, *part);
            }
            return Some(part);
        }
        proof {
            lemma_refusal_behind(front, parts(entry.0), None);
        }
        let value = first_refusal(&entries[i].1);
        if let Some(part) = value {
            proof {
                lemma_refusal_behind(front + parts(entry.0), parts(entry.1), Some(*part));
                lemma_entries_before(entries@, i + 1, *part);
            }
            return Some(part);
        }
        proof {
            lemma_refusal_behind(front + parts(entry.0), parts(entry.1), None);
        }
        i = i + 1;
    }
    assert(entries@.take(entries@.len() as int) =~= entries@);
    None
}

/// The part for which a value is refused: the first that was, in order. A value of
/// which no part was refused can be put together once its texts have been read.
pub fn first_refusal(decoded: &Decoded) -> (found: Option<&Decoded>)
    ensures
        match found {
            Some(part) => finds_refusal(parts(*decoded), Some(*part)),
            None => finds_refusal(parts(*decoded), None),
        },
    decreases *decoded, 1int,
{
    match decoded {
        Decoded::List(items) => first_refusal_of_items(items),
        Decoded::Struct(items) => first_refusal_of_items(items),
        Decoded::MapEntries(entries) => first_refusal_of_entries(entries),
        Decoded::Refused(_) | Decoded::Mismatch => {
            assert(is_first_refusal(parts(*decoded), 0));
            Some(decoded)
        },
        _ => None,
    }
}

// ---------------------------------------------------------------------------
// Whole columns
// ---------------------------------------------------------------------------

/// How a column, its type, the type of the value in it and the way out are called
/// in an error.
pub struct Wording {
    pub column: String,
    pub data_type: String,
    pub value_type: String,
    pub remediation: String,
}

/// The error on a value of a variant that its type is not read from.
pub open spec fn mismatch_text(wording: Wording) -> Seq<char> {
    "inlined data for column '"@ + wording.column@ + "' has DuckDB type "@ + wording.value_type@
        + ", which cannot be decoded as "@ + wording.data_type@ + "; "@ + wording.remediation@
}

/// A time of day.
pub open spec fn column_time(
    column: Seq<char>,
    from: TimeUnit,
    value: i64,
    to: TimeUnit,
    out: Decoded,
) -> bool {
    match time_in(value, from, to) {
        None => refuses(
            out,
            column_text("inlined data for column '"@, column, "' has an out-of-range time value"@),
        ),
        Some(time) => if is_time_unit(to) {
            out == Decoded::Time64(to, time)
        } else {
            refuses(
                out,
                "inlined data column '"@ + column + "' has unsupported time unit "@ + unit_name(to),
            )
        },
    }
}

/// A timestamp.
pub open spec fn column_timestamp(
    column: Seq<char>,
    from: TimeUnit,
    value: i64,
    to: TimeUnit,
    zone: Option<String>,
    out: Decoded,
) -> bool {
    match time_in(value, from, to) {
        None => refuses(
            out,
            column_text(
                "inlined data for column '"@,
                column,
                "' has an out-of-range timestamp value"@,
            ),
        ),
        Some(time) => {
            &&& out matches Decoded::Timestamp(unit, count, kept)
            &&& unit == to
            &&& count == time
            &&& opt_view(kept) == opt_view(zone)
        },
    }
}

/// Whether `out` is text that is still to be read, with that error.
pub open spec fn is_unread(out: Decoded, text: Seq<char>, message: Seq<char>) -> bool {
    &&& out matches Decoded::Unread { text: kept, otherwise }
    &&& kept@ == text
    &&& otherwise@ == message
}

/// The error on a decimal that is no value of its type.
pub open spec fn decimal_text(wording: Wording, text: Seq<char>) -> Seq<char> {
    "inlined data for column '"@ + wording.column@ + "' cannot decode decimal '"@ + text + "' as "@
        + wording.data_type@
}

/// The error on text that is no value of a type of `size` bytes.
pub open spec fn fixed_size_text(column: Seq<char>, text: Seq<char>, size: i32) -> Seq<char> {
    "inlined data for column '"@ + column + "' cannot decode '"@ + text
        + "' as fixed-size binary "@ + int_text(size as int)
}

/// Whether `out` is what `value` decodes to as the type of a column.
pub open spec fn column_decoding(
    value: DuckdbValue,
    data_type: DataType,
    wording: Wording,
    out: Decoded,
) -> bool {
    let column = wording.column@;
    match (data_type, value) {
        (_, DuckdbValue::Null) => out is Null,
        (DataType::Boolean, DuckdbValue::Boolean(v)) => out == Decoded::Boolean(v),
        (DataType::Int8, DuckdbValue::TinyInt(v)) => out == Decoded::Int8(v),
        (DataType::Int16, DuckdbValue::SmallInt(v)) => out == Decoded::Int16(v),
        (DataType::Int32, DuckdbValue::Int(v)) => out == Decoded::Int32(v),
        (DataType::Int64, DuckdbValue::BigInt(v)) => out == Decoded::Int64(v),
        (DataType::UInt8, DuckdbValue::UTinyInt(v)) => out == Decoded::UInt8(v),
        (DataType::UInt16, DuckdbValue::USmallInt(v)) => out == Decoded::UInt16(v),
        (DataType::UInt32, DuckdbValue::UInt(v)) => out == Decoded::UInt32(v),
        (DataType::UInt64, DuckdbValue::UBigInt(v)) => out == Decoded::UInt64(v),
        (DataType::Float32, DuckdbValue::Float(v)) => out == Decoded::Float32(v),
        (DataType::Float64, DuckdbValue::Double(v)) => out == Decoded::Float64(v),
        (DataType::Decimal128(_, _), DuckdbValue::Decimal(v)) => is_unread(
            out,
            v@,
            decimal_text(wording, v@),
        ),
        (DataType::Date32, DuckdbValue::Date32(v)) => out == Decoded::Date32(v),
        (DataType::Time64(to), DuckdbValue::Time64(from, v)) => column_time(
            column,
            from,
            v,
            to,
            out,
        ),
        (DataType::Timestamp(to, zone), DuckdbValue::Timestamp(from, v)) => column_timestamp(
            column,
            from,
            v,
            to,
            zone,
            out,
        ),
        (DataType::Interval, DuckdbValue::Interval { months, days, nanos }) => out
            == (Decoded::Interval { months, days, nanos }),
        (DataType::Utf8, DuckdbValue::RawText(v)) => if vstd::utf8::valid_utf8(v@) {
            out matches Decoded::Utf8(text) && text@ == vstd::utf8::decode_utf8(v@)
        } else {
            refuses(out, invalid_utf8_text(column, utf8_error_text(v@)))
        },
        (DataType::LargeUtf8, DuckdbValue::RawText(v)) => if vstd::utf8::valid_utf8(v@) {
            out matches Decoded::LargeUtf8(text) && text@ == vstd::utf8::decode_utf8(v@)
        } else {
            refuses(out, invalid_utf8_text(column, utf8_error_text(v@)))
        },
        (DataType::Utf8View, DuckdbValue::RawText(v)) => if vstd::utf8::valid_utf8(v@) {
            out matches Decoded::Utf8View(text) && text@ == vstd::utf8::decode_utf8(v@)
        } else {
            refuses(out, invalid_utf8_text(column, utf8_error_text(v@)))
        },
        (DataType::Binary, DuckdbValue::Blob(v)) => out matches Decoded::Binary(bytes) && bytes@
            == v@,
        (DataType::LargeBinary, DuckdbValue::Blob(v)) => out matches Decoded::LargeBinary(bytes)
            && bytes@ == v@,
        (DataType::BinaryView, DuckdbValue::Blob(v)) => out matches Decoded::BinaryView(bytes)
            && bytes@ == v@,
        (DataType::FixedSizeBinary(size), DuckdbValue::RawText(v)) => if vstd::utf8::valid_utf8(
            v@,
        ) {
            let text = vstd::utf8::decode_utf8(v@);
            is_unread(out, text, fixed_size_text(column, text, size))
        } else {
            refuses(out, invalid_utf8_text(column, utf8_error_text(v@)))
        },
        (DataType::FixedSizeBinary(size), DuckdbValue::Blob(v)) => if v@.len() == size {
            out matches Decoded::FixedSizeBinary(width, bytes) && width == size && bytes@ == v@
        } else {
            refuses(out, mismatch_text(wording))
        },
        (DataType::List(_), DuckdbValue::List(_)) => nested_decoding(value, data_type, column, out),
        (DataType::LargeList(_), DuckdbValue::List(_)) => nested_decoding(
            value,
            data_type,
            column,
            out,
        ),
        (DataType::FixedSizeList(_, _), DuckdbValue::Array(_)) => nested_decoding(
            value,
            data_type,
            column,
            out,
        ),
        (DataType::Struct(_), DuckdbValue::Struct(_)) => nested_decoding(
            value,
            data_type,
            column,
            out,
        ),
        (DataType::MapEntries(_), DuckdbValue::MapEntries(_)) => nested_decoding(
            value,
            data_type,
            column,
            out,
        ),
        _ => refuses(out, mismatch_text(wording)),
    }
}

fn mismatch(wording: &Wording) -> (out: Decoded)
    ensures
        refuses(out, mismatch_text(*wording)),
{
    let mut message = "inlined data for column '".to_string();
    message.append(wording.column.as_str());
    message.append("' has DuckDB type ");
    message.append(wording.value_type.as_str());
    message.append(", which cannot be decoded as ");
    message.append(wording.data_type.as_str());
    message.append("; ");
    message.append(wording.remediation.as_str());
    Decoded::Refused(message)
}

fn decode_column_time(column: &str, from: TimeUnit, value: i64, to: TimeUnit) -> (out: Decoded)
    ensures
        column_time(column@, from, value, to, out),
{
    match convert_time(value, from, to) {
        None => refuse("inlined data for column '", column, "' has an out-of-range time value"),
        Some(time) => match to {
            TimeUnit::Microsecond | TimeUnit::Nanosecond => Decoded::Time64(to, time),
            _ => {
                let mut message = "inlined data column '".to_string();
                message.append(column);
                message.append("' has unsupported time unit ");
                message.append(unit_text(to));
                Decoded::Refused(message)
            },
        },
    }
}

fn decode_column_timestamp(
    column: &str,
    from: TimeUnit,
    value: i64,
    to: TimeUnit,
    zone: &Option<String>,
) -> (out: Decoded)
    ensures
        column_timestamp(column@, from, value, to, *zone, out),
{
    match convert_time(value, from, to) {
        None => refuse("inlined data for column '", column, "' has an out-of-range timestamp value"),
        Some(time) => Decoded::Timestamp(to, time, clone_text(zone)),
    }
}

fn decode_decimal(text: &String, wording: &Wording) -> (out: Decoded)
    ensures
        is_unread(out, text@, decimal_text(*wording, text@)),
{
    let mut otherwise = "inlined data for column '".to_string();
    otherwise.append(wording.column.as_str());
    otherwise.append("' cannot decode decimal '");
    otherwise.append(text.as_str());
    otherwise.append("' as ");
    otherwise.append(wording.data_type.as_str());
    Decoded::Unread { text: text.clone(), otherwise }
}

fn decode_fixed_size(text: String, size: i32, column: &str) -> (out: Decoded)
    ensures
        is_unread(out, text@, fixed_size_text(column@, text@, size)),
{
    let mut otherwise = "inlined data for column '".to_string();
    otherwise.append(column);
    otherwise.append("' cannot decode '");
    otherwise.append(text.as_str());
    otherwise.append("' as fixed-size binary ");
    push_i64(&mut otherwise, size as i64);
    Decoded::Unread { text, otherwise }
}

/// Decodes the value of a column as the type of the column.
pub fn duckdb_inlined_scalar(value: &DuckdbValue, data_type: &DataType, wording: &Wording) -> (out:
    Decoded)
    requires
        maps_are_pairs(*data_type),
    ensures
        column_decoding(*value, *data_type, *wording, out),
{
    let column = wording.column.as_str();
    match (data_type, value) {
        (_, DuckdbValue::Null) => Decoded::Null,
        (DataType::Boolean, DuckdbValue::Boolean(v)) => Decoded::Boolean(*v),
        (DataType::Int8, DuckdbValue::TinyInt(v)) => Decoded::Int8(*v),
        (DataType::Int16, DuckdbValue::SmallInt(v)) => Decoded::Int16(*v),
        (DataType::Int32, DuckdbValue::Int(v)) => Decoded::Int32(*v),
        (DataType::Int64, DuckdbValue::BigInt(v)) => Decoded::Int64(*v),
        (DataType::UInt8, DuckdbValue::UTinyInt(v)) => Decoded::UInt8(*v),
        (DataType::UInt16, DuckdbValue::USmallInt(v)) => Decoded::UInt16(*v),
        (DataType::UInt32, DuckdbValue::UInt(v)) => Decoded::UInt32(*v),
        (DataType::UInt64, DuckdbValue::UBigInt(v)) => Decoded::UInt64(*v),
        (DataType::Float32, DuckdbValue::Float(v)) => Decoded::Float32(*v),
        (DataType::Float64, DuckdbValue::Double(v)) => Decoded::Float64(*v),
        (DataType::Decimal128(_, _), DuckdbValue::Decimal(v)) => decode_decimal(v, wording),
        (DataType::Date32, DuckdbValue::Date32(v)) => Decoded::Date32(*v),
        (DataType::Time64(to), DuckdbValue::Time64(from, v)) => decode_column_time(
            column,
            *from,
            *v,
            *to,
        ),
        (DataType::Timestamp(to, zone), DuckdbValue::Timestamp(from, v)) => decode_column_timestamp(
            column,
            *from,
            *v,
            *to,
            zone,
        ),
        (DataType::Interval, DuckdbValue::Interval { months, days, nanos }) => Decoded::Interval {
            months: *months,
            days: *days,
            nanos: *nanos,
        },
        (DataType::Utf8, DuckdbValue::RawText(v)) => match decode_duckdb_text(v, column) {
            Ok(text) => Decoded::Utf8(text),
            Err(message) => Decoded::Refused(message),
        },
        (DataType::LargeUtf8, DuckdbValue::RawText(v)) => match decode_duckdb_text(v, column) {
            Ok(text) => Decoded::LargeUtf8(text),
            Err(message) => Decoded::Refused(message),
        },
        (DataType::Utf8View, DuckdbValue::RawText(v)) => match decode_duckdb_text(v, column) {
            Ok(text) => Decoded::Utf8View(text),
            Err(message) => Decoded::Refused(message),
        },
        (DataType::Binary, DuckdbValue::Blob(v)) => Decoded::Binary(v.clone()),
        (DataType::LargeBinary, DuckdbValue::Blob(v)) => Decoded::LargeBinary(v.clone()),
        (DataType::BinaryView, DuckdbValue::Blob(v)) => Decoded::BinaryView(v.clone()),
        (DataType::FixedSizeBinary(size), DuckdbValue::RawText(v)) => match decode_duckdb_text(
            v,
            column,
        ) {
            Ok(text) => decode_fixed_size(text, *size, column),
            Err(message) => Decoded::Refused(message),
        },
        (DataType::FixedSizeBinary(size), DuckdbValue::Blob(v)) => {
            if has_width(v, *size) {
                Decoded::FixedSizeBinary(*size, v.clone())
            } else {
                mismatch(wording)
            }
        },
        (DataType::List(_), DuckdbValue::List(_)) => duckdb_owned_scalar(value, data_type, column),
        (DataType::LargeList(_), DuckdbValue::List(_)) => duckdb_owned_scalar(
            value,
            data_type,
            column,
        ),
        (DataType::FixedSizeList(_, _), DuckdbValue::Array(_)) => duckdb_owned_scalar(
            value,
            data_type,
            column,
        ),
        (DataType::Struct(_), DuckdbValue::Struct(_)) => duckdb_owned_scalar(
            value,
            data_type,
            column,
        ),
        (DataType::MapEntries(_), DuckdbValue::MapEntries(_)) => duckdb_owned_scalar(
            value,
            data_type,
            column,
        ),
        _ => mismatch(wording),
    }
}

// ---------------------------------------------------------------------------
// What is stored is read back
// ---------------------------------------------------------------------------

/// What a value says, whatever it is stored as.
pub enum Content {
    Truth(bool),
    Number(int),
    /// A float, by its bits.
    Bits(int),
    /// Days since the start of 1970.
    Day(int),
    Span(int, int, int),
    Characters(Seq<char>),
    Bytes(Seq<u8>),
    /// Not one of these.
    Unknown,
}

/// What a value that DuckDB hands out says.
pub open spec fn content_in(value: DuckdbValue) -> Content {
    match value {
        DuckdbValue::Boolean(v) => Content::Truth(v),
        DuckdbValue::TinyInt(v) => Content::Number(v as int),
        DuckdbValue::SmallInt(v) => Content::Number(v as int),
        DuckdbValue::Int(v) => Content::Number(v as int),
        DuckdbValue::BigInt(v) => Content::Number(v as int),
        DuckdbValue::UTinyInt(v) => Content::Number(v as int),
        DuckdbValue::USmallInt(v) => Content::Number(v as int),
        DuckdbValue::UInt(v) => Content::Number(v as int),
        DuckdbValue::UBigInt(v) => Content::Number(v as int),
        DuckdbValue::Float(v) => Content::Bits(v as int),
        DuckdbValue::Double(v) => Content::Bits(v as int),
        DuckdbValue::Decimal(v) => Content::Characters(v@),
        DuckdbValue::Date32(v) => Content::Day(v as int),
        DuckdbValue::Interval { months, days, nanos } => Content::Span(
            months as int,
            days as int,
            nanos as int,
        ),
        DuckdbValue::RawText(v) => Content::Characters(vstd::utf8::decode_utf8(v@)),
        DuckdbValue::Text(v) => Content::Characters(v@),
        DuckdbValue::Blob(v) => Content::Bytes(v@),
        _ => Content::Unknown,
    }
}

/// What a decoded value says.
pub open spec fn content_of(out: Decoded) -> Content {
    match out {
        Decoded::Boolean(v) => Content::Truth(v),
        Decoded::Int8(v) => Content::Number(v as int),
        Decoded::Int16(v) => Content::Number(v as int),
        Decoded::Int32(v) => Content::Number(v as int),
        Decoded::Int64(v) => Content::Number(v as int),
        Decoded::UInt8(v) => Content::Number(v as int),
        Decoded::UInt16(v) => Content::Number(v as int),
        Decoded::UInt32(v) => Content::Number(v as int),
        Decoded::UInt64(v) => Content::Number(v as int),
        Decoded::Float32(v) => Content::Bits(v as int),
        Decoded::Float64(v) => Content::Bits(v as int),
        Decoded::Unread { text, otherwise } => Content::Characters(text@),
        Decoded::Date32(v) => Content::Day(v as int),
        Decoded::Interval { months, days, nanos } => Content::Span(
            months as int,
            days as int,
            nanos as int,
        ),
        Decoded::Utf8(v) => Content::Characters(v@),
        Decoded::LargeUtf8(v) => Content::Characters(v@),
        Decoded::Utf8View(v) => Content::Characters(v@),
        Decoded::Binary(v) => Content::Bytes(v@),
        Decoded::LargeBinary(v) => Content::Bytes(v@),
        Decoded::BinaryView(v) => Content::Bytes(v@),
        Decoded::FixedSizeBinary(_, v) => Content::Bytes(v@),
        _ => Content::Unknown,
    }
}

/// Whether a decoded value is one of this type.
pub open spec fn is_of_type(out: Decoded, data_type: DataType) -> bool {
    match out {
        Decoded::Boolean(_) => data_type is Boolean,
        Decoded::Int8(_) => data_type is Int8,
        Decoded::Int16(_) => data_type is Int16,
        Decoded::Int32(_) => data_type is Int32,
        Decoded::Int64(_) => data_type is Int64,
        Decoded::UInt8(_) => data_type is UInt8,
        Decoded::UInt16(_) => data_type is UInt16,
        Decoded::UInt32(_) => data_type is UInt32,
        Decoded::UInt64(_) => data_type is UInt64,
        Decoded::Float32(_) => data_type is Float32,
        Decoded::Float64(_) => data_type is Float64,
        Decoded::Unread { .. } => data_type is Decimal128 || data_type is FixedSizeBinary,
        Decoded::Date32(_) => data_type is Date32,
        Decoded::Time64(unit, _) => data_type == DataType::Time64(unit),
        Decoded::Timestamp(unit, _, zone) => data_type matches DataType::Timestamp(of, kept) && of
            == unit && opt_view(kept) == opt_view(zone),
        Decoded::Interval { .. } => data_type is Interval,
        Decoded::Utf8(_) => data_type is Utf8,
        Decoded::LargeUtf8(_) => data_type is LargeUtf8,
        Decoded::Utf8View(_) => data_type is Utf8View,
        Decoded::Binary(_) => data_type is Binary,
        Decoded::LargeBinary(_) => data_type is LargeBinary,
        Decoded::BinaryView(_) => data_type is BinaryView,
        Decoded::FixedSizeBinary(size, bytes) => data_type == DataType::FixedSizeBinary(size)
            && bytes@.len() == size,
        Decoded::List(_) => data_type is List || data_type is LargeList
            || data_type is FixedSizeList,
        Decoded::Struct(items) => data_type matches DataType::Struct(fields) && fields@.len()
            == items@.len(),
        Decoded::MapEntries(_) => data_type is MapEntries,
        Decoded::Null => true,
        Decoded::Refused(_) => false,
        Decoded::Mismatch => false,
    }
}

/// Whether integers of a value's variant have a sign, and how many bits they have.
pub open spec fn integer_shape_in(value: DuckdbValue) -> Option<(bool, int)> {
    match value {
        DuckdbValue::TinyInt(_) => Some((true, 8)),
        DuckdbValue::SmallInt(_) => Some((true, 16)),
        DuckdbValue::Int(_) => Some((true, 32)),
        DuckdbValue::BigInt(_) => Some((true, 64)),
        DuckdbValue::UTinyInt(_) => Some((false, 8)),
        DuckdbValue::USmallInt(_) => Some((false, 16)),
        DuckdbValue::UInt(_) => Some((false, 32)),
        DuckdbValue::UBigInt(_) => Some((false, 64)),
        _ => None,
    }
}

/// Whether integers of a type have a sign, and how many bits they have.
pub open spec fn integer_shape_of(data_type: DataType) -> Option<(bool, int)> {
    match data_type {
        DataType::Int8 => Some((true, 8)),
        DataType::Int16 => Some((true, 16)),
        DataType::Int32 => Some((true, 32)),
        DataType::Int64 => Some((true, 64)),
        DataType::UInt8 => Some((false, 8)),
        DataType::UInt16 => Some((false, 16)),
        DataType::UInt32 => Some((false, 32)),
        DataType::UInt64 => Some((false, 64)),
        _ => None,
    }
}

/// Whether a value was not read.
pub open spec fn was_refused(out: Decoded) -> bool {
    out is Refused || out is Mismatch
}

/// A value of a column is read as the type of the column and says what was stored, or it
/// is refused. Moments are another matter: they are counted anew.
pub proof fn lemma_column_value_is_kept(
    value: DuckdbValue,
    data_type: DataType,
    wording: Wording,
    out: Decoded,
)
    requires
        column_decoding(value, data_type, wording, out),
        !was_refused(out),
    ensures
        is_of_type(out, data_type),
        value is Null <==> out is Null,
        !(out is Time64 || out is Timestamp) ==> content_of(out) == content_in(value),
{
}

/// So is a simple value inside a list, struct or map.
pub proof fn lemma_nested_value_is_kept(
    value: DuckdbValue,
    data_type: DataType,
    column: Seq<char>,
    out: Decoded,
)
    requires
        nested_decoding(value, data_type, column, out),
        !was_refused(out),
    ensures
        is_of_type(out, data_type),
        value is Null <==> out is Null,
        !(out is Time64 || out is Timestamp) ==> content_of(out) == content_in(value),
{
}

/// No integer is coerced: it is read where it has the sign and the width of the type,
/// and only there.
pub proof fn lemma_integers_are_not_coerced(
    value: DuckdbValue,
    data_type: DataType,
    wording: Wording,
    column: Seq<char>,
    out: Decoded,
)
    requires
        integer_shape_of(data_type) is Some || integer_shape_in(value) is Some,
        value !is Null,
    ensures
        column_decoding(value, data_type, wording, out) ==> (was_refused(out) <==> integer_shape_in(
            value,
        ) != integer_shape_of(data_type)),
        nested_decoding(value, data_type, column, out) ==> (was_refused(out) <==> integer_shape_in(
            value,
        ) != integer_shape_of(data_type)),
{
}

/// The values of the other simple types are read where they are of the variant that
/// DuckDB has for the type. Text of a whole column has to be UTF-8, and a blob of a
/// fixed size has to have that size.
pub proof fn lemma_readable_values(
    value: DuckdbValue,
    data_type: DataType,
    wording: Wording,
    out: Decoded,
)
    requires
        column_decoding(value, data_type, wording, out),
        value !is Null,
    ensures
        data_type is Boolean ==> (was_refused(out) <==> value !is Boolean),
        data_type is Float32 ==> (was_refused(out) <==> value !is Float),
        data_type is Float64 ==> (was_refused(out) <==> value !is Double),
        data_type is Decimal128 ==> (was_refused(out) <==> value !is Decimal),
        data_type is Date32 ==> (was_refused(out) <==> value !is Date32),
        data_type is Interval ==> (was_refused(out) <==> value !is Interval),
        data_type is Utf8 || data_type is LargeUtf8 || data_type is Utf8View ==> (was_refused(out)
            <==> !(value matches DuckdbValue::RawText(bytes) && vstd::utf8::valid_utf8(bytes@))),
        data_type is Binary || data_type is LargeBinary || data_type is BinaryView ==> (was_refused(
            out,
        ) <==> value !is Blob),
        data_type matches DataType::FixedSizeBinary(size) ==> (was_refused(out) <==> match value {
            DuckdbValue::Blob(bytes) => bytes@.len() != size,
            DuckdbValue::RawText(bytes) => !vstd::utf8::valid_utf8(bytes@),
            _ => true,
        }),
        data_type is Float16 || data_type is Date64 || data_type is Other ==> was_refused(out),
        data_type is List || data_type is LargeList ==> (out is List <==> value is List),
        data_type is FixedSizeList ==> (out is List <==> value is Array),
        data_type is Struct ==> (out is Struct <==> value is Struct),
        data_type is MapEntries && value !is MapEntries ==> was_refused(out),
{
}

/// The same of values inside a list, struct or map, whose text is text already. A list
/// of a fixed size may be a list there.
pub proof fn lemma_readable_nested_values(
    value: DuckdbValue,
    data_type: DataType,
    column: Seq<char>,
    out: Decoded,
)
    requires
        nested_decoding(value, data_type, column, out),
        value !is Null,
    ensures
        data_type is Boolean ==> (was_refused(out) <==> value !is Boolean),
        data_type is Float32 ==> (was_refused(out) <==> value !is Float),
        data_type is Float64 ==> (was_refused(out) <==> value !is Double),
        data_type is Decimal128 ==> (was_refused(out) <==> value !is Decimal),
        data_type is Date32 ==> (was_refused(out) <==> value !is Date32),
        data_type is Interval ==> (was_refused(out) <==> value !is Interval),
        data_type is Utf8 || data_type is LargeUtf8 || data_type is Utf8View ==> (was_refused(out)
            <==> value !is Text),
        data_type is Binary || data_type is LargeBinary || data_type is BinaryView ==> (was_refused(
            out,
        ) <==> value !is Blob),
        data_type matches DataType::FixedSizeBinary(size) ==> (was_refused(out) <==> !(
        value matches DuckdbValue::Blob(bytes) && bytes@.len() == size)),
        data_type is Float16 || data_type is Date64 || data_type is Other ==> was_refused(out),
        data_type is List || data_type is LargeList ==> (out is List <==> value is List),
        data_type is FixedSizeList ==> (out is List <==> value is List || value is Array),
        data_type is Struct ==> (out is Struct <==> value is Struct),
        data_type is MapEntries && value !is MapEntries ==> was_refused(out),
{
}

/// How many of a unit make a second.
pub open spec fn per_second(unit: TimeUnit) -> int {
    match unit {
        TimeUnit::Second => 1,
        TimeUnit::Millisecond => 1000,
        TimeUnit::Microsecond => 1_000_000,
        TimeUnit::Nanosecond => 1_000_000_000,
    }
}

/// Whether `count` of one unit is `value` of another, less what is below the unit: it
/// lies between zero and the moment, and less than one unit from it.
pub open spec fn is_same_moment(value: int, from: TimeUnit, count: int, to: TimeUnit) -> bool {
    &&& value >= 0 ==> 0 <= count && 0 <= value * per_second(to) - count * per_second(from)
        < per_second(from)
    &&& value <= 0 ==> count <= 0 && 0 <= count * per_second(from) - value * per_second(to)
        < per_second(from)
}

#[verifier::spinoff_prover]
proof fn lemma_same_moment(value: i64, from: TimeUnit, to: TimeUnit)
    ensures
        is_same_moment(value as int, from, converted_time(value as int, from, to), to),
{
    let v: int = value as int;
    let size: int = if v >= 0 {
        v
    } else {
        -v
    };
    let nanos: int = size * unit_nanos(from);
    let count: int = nanos / unit_nanos(to);
    assert(v < 0 ==> -(v * unit_nanos(from)) == nanos) by (nonlinear_arith)
        requires
            v < 0 ==> size == -v,
            nanos == size * unit_nanos(from),
    ;
    assert(v < 0 ==> v * unit_nanos(from) < 0) by (nonlinear_arith)
        requires
            unit_nanos(from) >= 1,
    ;
    assert(v >= 0 ==> v * unit_nanos(from) >= 0) by (nonlinear_arith)
        requires
            unit_nanos(from) >= 1,
    ;
    vstd::arithmetic::div_mod::lemma_fundamental_div_mod(nanos, unit_nanos(to));
    let rest: int = nanos % unit_nanos(to);
    assert(nanos == unit_nanos(to) * count + rest);
    assert(count >= 0) by (nonlinear_arith)
        requires
            nanos == unit_nanos(to) * count + rest,
            0 <= rest < unit_nanos(to),
            nanos >= 0,
    ;
    assert(per_second(from) * unit_nanos(from) == 1_000_000_000);
    assert(per_second(to) * unit_nanos(to) == 1_000_000_000);
    let (pf, pt, uf, ut) = (per_second(from), per_second(to), unit_nanos(from), unit_nanos(to));
    assert(size * pt - count * pf >= 0 && size * pt - count * pf < pf) by (nonlinear_arith)
        requires
            pf * uf == 1_000_000_000,
            pt * ut == 1_000_000_000,
            size * uf == ut * count + rest,
            0 <= rest < ut,
            pf >= 1,
            pt >= 1,
            uf >= 1,
            ut >= 1,
    {
        let d = size * pt - count * pf;
        assert(size * uf * (pt * pf) == (size * pt) * (pf * uf)) by (nonlinear_arith);
        assert((ut * count) * (pt * pf) == (count * pf) * (pt * ut)) by (nonlinear_arith);
        assert((ut * count + rest) * (pt * pf) == (ut * count) * (pt * pf) + rest * (pt * pf))
            by (nonlinear_arith);
        assert(d * 1_000_000_000 == rest * (pt * pf));
        assert(rest * (pt * pf) >= 0) by (nonlinear_arith)
            requires
                rest >= 0,
                pt >= 1,
                pf >= 1,
        ;
        assert(rest * (pt * pf) < ut * (pt * pf)) by (nonlinear_arith)
            requires
                rest < ut,
                pt >= 1,
                pf >= 1,
        ;
        assert(ut * (pt * pf) == pf * (pt * ut)) by (nonlinear_arith);
    }
    let there = converted_time(v, from, to);
    if v > 0 {
        assert(there == count);
        assert(size == v);
    } else if v < 0 {
        assert(there == -count);
        assert((-count) * pf == -(count * pf)) by (nonlinear_arith);
        assert(v * pt == -(size * pt)) by (nonlinear_arith)
            requires
                size == -v,
        ;
        assert(there * pf - v * pt == size * pt - count * pf);
    } else {
        assert(nanos == 0) by (nonlinear_arith)
            requires
                nanos == size * uf,
                size == 0,
        ;
        assert(count == 0) by (nonlinear_arith)
            requires
                0 == ut * count + rest,
                0 <= rest < ut,
                count >= 0,
        ;
        assert(there == 0);
        assert(0 * pt == 0 && 0 * pf == 0) by (nonlinear_arith);
    }
}

/// A count that is given in another unit is the same moment, as near as the unit allows,
/// and it is given wherever there is room for it.
pub proof fn lemma_converted_moment(value: i64, from: TimeUnit, to: TimeUnit)
    ensures
        match time_in(value, from, to) {
            Some(count) => is_same_moment(value as int, from, count as int, to),
            None => forall|count: i64| !#[trigger] is_same_moment(value as int, from, count as int, to),
        },
{
    lemma_same_moment(value, from, to);
    if time_in(value, from, to) is None {
        let there = converted_time(value as int, from, to);
        assert forall|count: i64| !#[trigger] is_same_moment(value as int, from, count as int, to) by {
            if is_same_moment(value as int, from, count as int, to) {
                lemma_moment_is_one(value as int, from, count as int, there, to);
            }
        }
    }
}

proof fn lemma_moment_is_one(value: int, from: TimeUnit, a: int, b: int, to: TimeUnit)
    requires
        is_same_moment(value, from, a, to),
        is_same_moment(value, from, b, to),
    ensures
        a == b,
{
    let p = per_second(from);
    assert(-p < a * p - b * p < p);
    assert(a == b) by (nonlinear_arith)
        requires
            -p < a * p - b * p < p,
            p >= 1,
    ;
}

/// Times of day and timestamps are read as the same moment in the unit of the type. A
/// time of day is kept in microseconds or nanoseconds.
pub proof fn lemma_moments_are_kept(
    value: DuckdbValue,
    data_type: DataType,
    wording: Wording,
    column: Seq<char>,
    out: Decoded,
)
    requires
        column_decoding(value, data_type, wording, out) || nested_decoding(
            value,
            data_type,
            column,
            out,
        ),
        data_type is Time64 || data_type is Timestamp,
        value !is Null,
    ensures
        match (data_type, value) {
            (DataType::Time64(to), DuckdbValue::Time64(from, v)) => match out {
                Decoded::Time64(unit, count) => (to is Microsecond || to is Nanosecond) && unit
                    == to && is_same_moment(v as int, from, count as int, to),
                _ => was_refused(out) && (to is Second || to is Millisecond || forall|count: i64|
                    !#[trigger] is_same_moment(v as int, from, count as int, to)),
            },
            (DataType::Timestamp(to, zone), DuckdbValue::Timestamp(from, v)) => match out {
                Decoded::Timestamp(unit, count, kept) => unit == to && opt_view(kept) == opt_view(
                    zone,
                ) && is_same_moment(v as int, from, count as int, to),
                _ => was_refused(out) && forall|count: i64|
                    !#[trigger] is_same_moment(v as int, from, count as int, to),
            },
            _ => was_refused(out),
        },
{
    match (data_type, value) {
        (DataType::Time64(to), DuckdbValue::Time64(from, v)) => {
            lemma_converted_moment(v, from, to);
        },
        (DataType::Timestamp(to, zone), DuckdbValue::Timestamp(from, v)) => {
            lemma_converted_moment(v, from, to);
        },
        _ => {},
    }
}

/// A list has an item for each value, in their order.
pub proof fn lemma_lists_keep_order(
    values: Vec<DuckdbValue>,
    item: DataType,
    column: Seq<char>,
    items: Vec<Decoded>,
    i: int,
)
    requires
        nested_decoding(
            DuckdbValue::List(values),
            DataType::List(Box::new(item)),
            column,
            Decoded::List(items),
        ),
    ensures
        items@.len() == values@.len(),
        0 <= i < values@.len() ==> nested_decoding(values@[i], item, column, items@[i]),
{
}

/// A list of numbers is read as the same numbers.
pub proof fn lemma_list_of_numbers(
    values: Vec<DuckdbValue>,
    item: DataType,
    column: Seq<char>,
    items: Vec<Decoded>,
    i: int,
)
    requires
        nested_decoding(
            DuckdbValue::List(values),
            DataType::List(Box::new(item)),
            column,
            Decoded::List(items),
        ),
        0 <= i < values@.len(),
        integer_shape_of(item) is Some,
        integer_shape_in(values@[i]) == integer_shape_of(item),
    ensures
        content_of(items@[i]) == content_in(values@[i]),
        is_of_type(items@[i], item),
{
    lemma_lists_keep_order(values, item, column, items, i);
}

/// The fields of a struct are found by name, in whatever order the values come. Of two
/// values of one name the first counts, and a field without a value is refused.
pub proof fn lemma_structs_go_by_name(
    values: Vec<(String, DuckdbValue)>,
    fields: Vec<Field>,
    column: Seq<char>,
    items: Vec<Decoded>,
    i: int,
    k: int,
)
    requires
        nested_decoding(
            DuckdbValue::Struct(values),
            DataType::Struct(fields),
            column,
            Decoded::Struct(items),
        ),
        0 <= i < fields@.len(),
    ensures
        items@.len() == fields@.len(),
        0 <= k < values@.len() && values@[k].0@ == fields@[i].name@ && (forall|j: int|
            0 <= j < k ==> (#[trigger] values@[j]).0@ != fields@[i].name@) ==> nested_decoding(
            values@[k].1,
            fields@[i].data_type,
            column,
            items@[i],
        ),
        (forall|j: int| 0 <= j < values@.len() ==> (#[trigger] values@[j]).0@ != fields@[i].name@)
            ==> items@[i] is Refused,
{
    if 0 <= k < values@.len() && values@[k].0@ == fields@[i].name@ && (forall|j: int|
        0 <= j < k ==> (#[trigger] values@[j]).0@ != fields@[i].name@) {
        assert(is_first_named(values@, fields@[i].name@, k));
    }
}

/// A map has an entry for each entry, in their order: keys are read as the first type of
/// the entries and values as the second.
pub proof fn lemma_maps_keep_entries(
    values: Vec<(DuckdbValue, DuckdbValue)>,
    fields: Vec<Field>,
    column: Seq<char>,
    items: Vec<(Decoded, Decoded)>,
    i: int,
)
    requires
        nested_decoding(
            DuckdbValue::MapEntries(values),
            DataType::MapEntries(Box::new(DataType::Struct(fields))),
            column,
            Decoded::MapEntries(items),
        ),
        fields@.len() >= 2,
    ensures
        items@.len() == values@.len(),
        0 <= i < values@.len() ==> nested_decoding(
            values@[i].0,
            fields@[0].data_type,
            column,
            items@[i].0,
        ),
        0 <= i < values@.len() ==> nested_decoding(
            values@[i].1,
            fields@[1].data_type,
            column,
            items@[i].1,
        ),
{
}

/// A whole column that holds lists, structs or maps is read as one inside another is.
pub proof fn lemma_containers_are_read_alike(
    value: DuckdbValue,
    data_type: DataType,
    wording: Wording,
    out: Decoded,
)
    requires
        column_decoding(value, data_type, wording, out),
        out is List || out is Struct || out is MapEntries,
    ensures
        nested_decoding(value, data_type, wording.column@, out),
{
}

/// Whether the value itself or a part of it, at whatever depth, was refused.
pub open spec fn holds_refusal(decoded: Decoded) -> bool
    decreases decoded,
{
    match decoded {
        Decoded::Refused(_) => true,
        Decoded::Mismatch => true,
        Decoded::List(items) => exists|i: int|
            0 <= i < items@.len() && holds_refusal(#[trigger] items@[i]),
        Decoded::Struct(items) => exists|i: int|
            0 <= i < items@.len() && holds_refusal(#[trigger] items@[i]),
        Decoded::MapEntries(entries) => exists|i: int|
            0 <= i < entries@.len() && (holds_refusal((#[trigger] entries@[i]).0) || holds_refusal(
                entries@[i].1,
            )),
        _ => false,
    }
}

/// A refusal is found wherever there is one, and the value is put together where there
/// is none.
pub proof fn lemma_refusals_are_found(decoded: Decoded, found: Option<Decoded>)
    requires
        finds_refusal(parts(decoded), found),
    ensures
        found is Some <==> holds_refusal(decoded),
        found matches Some(part) ==> part is Refused || part is Mismatch,
{
    lemma_parts_hold_refusal(decoded);
    if let Some(part) = found {
        let i = choose|i: int| #[trigger] is_first_refusal(parts(decoded), i) && parts(decoded)[i]
            == part;
        assert(is_refusal(parts(decoded)[i]));
    }
}

/// Whether one of these parts was refused.
spec fn has_refusal(parts: Seq<Decoded>) -> bool {
    exists|i: int| 0 <= i < parts.len() && is_refusal(#[trigger] parts[i])
}

proof fn lemma_refusal_in_sum(a: Seq<Decoded>, b: Seq<Decoded>)
    ensures
        has_refusal(a + b) <==> has_refusal(a) || has_refusal(b),
{
    let c = a + b;
    if has_refusal(a) {
        let i = choose|i: int| 0 <= i < a.len() && is_refusal(#[trigger] a[i]);
        assert(c[i] == a[i]);
    }
    if has_refusal(b) {
        let i = choose|i: int| 0 <= i < b.len() && is_refusal(#[trigger] b[i]);
        assert(c[a.len() + i] == b[i]);
    }
    if has_refusal(c) {
        let i = choose|i: int| 0 <= i < c.len() && is_refusal(#[trigger] c[i]);
        if i < a.len() {
            assert(a[i] == c[i]);
        } else {
            assert(b[i - a.len()] == c[i]);
        }
    }
}

proof fn lemma_parts_hold_refusal(decoded: Decoded)
    ensures
        has_refusal(parts(decoded)) <==> holds_refusal(decoded),
    decreases decoded, 1int,
{
    match decoded {
        Decoded::List(items) => {
            lemma_items_hold_refusal(items@);
        },
        Decoded::Struct(items) => {
            lemma_items_hold_refusal(items@);
        },
        Decoded::MapEntries(entries) => {
            lemma_entries_hold_refusal(entries@);
        },
        _ => {
            assert(parts(decoded)[0] == decoded);
        },
    }
}

proof fn lemma_items_hold_refusal(items: Seq<Decoded>)
    ensures
        has_refusal(parts_of_items(items)) <==> exists|i: int|
            0 <= i < items.len() && holds_refusal(#[trigger] items[i]),
    decreases items, 0int,
{
    if items.len() > 0 {
        let n = items.len() - 1;
        let front = items.subrange(0, n);
        lemma_items_hold_refusal(front);
        lemma_parts_hold_refusal(items[n]);
        lemma_refusal_in_sum(parts_of_items(front), parts(items[n]));
        if exists|i: int| 0 <= i < front.len() && holds_refusal(#[trigger] front[i]) {
            let i = choose|i: int| 0 <= i < front.len() && holds_refusal(#[trigger] front[i]);
            assert(items[i] == front[i]);
        }
        if exists|i: int| 0 <= i < items.len() && holds_refusal(#[trigger] items[i]) {
            let i = choose|i: int| 0 <= i < items.len() && holds_refusal(#[trigger] items[i]);
            if i < n {
                assert(front[i] == items[i]);
            }
        }
    }
}

proof fn lemma_entries_hold_refusal(entries: Seq<(Decoded, Decoded)>)
    ensures
        has_refusal(parts_of_entries(entries)) <==> exists|i: int|
            0 <= i < entries.len() && (holds_refusal((#[trigger] entries[i]).0) || holds_refusal(
                entries[i].1,
            )),
    decreases entries, 0int,
{
    if entries.len() > 0 {
        let n = entries.len() - 1;
        let front = entries.subrange(0, n);
        lemma_entries_hold_refusal(front);
        lemma_parts_hold_refusal(entries[n].0);
        lemma_parts_hold_refusal(entries[n].1);
        lemma_refusal_in_sum(parts_of_entries(front), parts(entries[n].0));
        lemma_refusal_in_sum(
            parts_of_entries(front) + parts(entries[n].0),
            parts(entries[n].1),
        );
        if exists|i: int|
            0 <= i < front.len() && (holds_refusal((#[trigger] front[i]).0) || holds_refusal(
                front[i].1,
            )) {
            let i = choose|i: int|
                0 <= i < front.len() && (holds_refusal((#[trigger] front[i]).0) || holds_refusal(
                    front[i].1,
                ));
            assert(entries[i] == front[i]);
        }
        if exists|i: int|
            0 <= i < entries.len() && (holds_refusal((#[trigger] entries[i]).0) || holds_refusal(
                entries[i].1,
            )) {
            let i = choose|i: int|
                0 <= i < entries.len() && (holds_refusal((#[trigger] entries[i]).0)
                    || holds_refusal(entries[i].1));
            if i < n {
                assert(front[i] == entries[i]);
            }
        }
    }
}

/// A type is fit to be read where the entries of each map in it have a key and a value, at
/// whatever depth.
pub proof fn lemma_map_pairs(item: DataType, fields: Vec<Field>, size: i32, i: int)
    ensures
        maps_are_pairs(DataType::MapEntries(Box::new(DataType::Struct(fields)))) ==> fields@.len()
            > 1,
        maps_are_pairs(DataType::MapEntries(Box::new(item))) ==> maps_are_pairs(item),
        maps_are_pairs(DataType::List(Box::new(item))) <==> maps_are_pairs(item),
        maps_are_pairs(DataType::LargeList(Box::new(item))) <==> maps_are_pairs(item),
        maps_are_pairs(DataType::FixedSizeList(Box::new(item), size)) <==> maps_are_pairs(item),
        maps_are_pairs(DataType::Struct(fields)) && 0 <= i < fields@.len() ==> maps_are_pairs(
            fields@[i].data_type,
        ),
        (forall|k: int| 0 <= k < fields@.len() ==> maps_are_pairs((#[trigger] fields@[k]).data_type))
            ==> maps_are_pairs(DataType::Struct(fields)) && (fields@.len() == 2 ==> maps_are_pairs(
            DataType::MapEntries(Box::new(DataType::Struct(fields))),
        )),
        !(item is List || item is LargeList || item is FixedSizeList || item is Struct
            || item is MapEntries) ==> maps_are_pairs(item),
{
    reveal_with_fuel(maps_are_pairs, 3);
}

} // verus!
