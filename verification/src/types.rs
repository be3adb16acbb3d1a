//! The column types that the catalog's logic tells apart.

use vstd::prelude::*;

verus! {

/// The unit of a time of day or a timestamp.
#[derive(Debug, Clone, Copy, PartialEq, Eq, Structural)]
pub enum TimeUnit {
    Second,
    Millisecond,
    Microsecond,
    Nanosecond,
}

/// A column type.
#[derive(Debug, PartialEq, Eq)]
pub enum DataType {
    Boolean,
    Int8,
    Int16,
    Int32,
    Int64,
    UInt8,
    UInt16,
    UInt32,
    UInt64,
    Float16,
    Float32,
    Float64,
    /// A fixed-point number: how many digits, and how many of them behind the
    /// point.
    Decimal128(u8, i8),
    Date32,
    Date64,
    Time64(TimeUnit),
    /// A timestamp, with the time zone of one that has it.
    Timestamp(TimeUnit, Option<String>),
    Interval,
    Utf8,
    LargeUtf8,
    Utf8View,
    Binary,
    LargeBinary,
    BinaryView,
    FixedSizeBinary(i32),
    List(Box<DataType>),
    LargeList(Box<DataType>),
    FixedSizeList(Box<DataType>, i32),
    Struct(Vec<Field>),
    /// A map, by the type of its entries.
    MapEntries(Box<DataType>),
    /// A type that none of the rules speaks of.
    Other,
}

/// A named column of a struct.
#[derive(Debug, PartialEq, Eq)]
pub struct Field {
    pub name: String,
    pub data_type: DataType,
}

impl DataType {
    /// Whether this is one of the eight integer types.
    pub open spec fn is_integer_type(self) -> bool {
        match self {
            DataType::Int8 | DataType::Int16 | DataType::Int32 | DataType::Int64 => true,
            DataType::UInt8 | DataType::UInt16 | DataType::UInt32 | DataType::UInt64 => true,
            _ => false,
        }
    }

    /// Whether this is one of the eight integer types.
    pub fn is_integer(&self) -> (integer: bool)
        ensures
            integer == self.is_integer_type(),
    {
        match self {
            DataType::Int8 | DataType::Int16 | DataType::Int32 | DataType::Int64 => true,
            DataType::UInt8 | DataType::UInt16 | DataType::UInt32 | DataType::UInt64 => true,
            _ => false,
        }
    }
}

/// The view of an optional string slice.
pub open spec fn opt_str(value: Option<&'static str>) -> Option<Seq<char>> {
    match value {
        Some(text) => Some(text@),
        None => None,
    }
}

} // verus!
