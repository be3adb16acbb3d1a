use datafusion_ducklake::duckdb_values::{
    cannot_rebuild_text, convert_time, decode_duckdb_text, duckdb_inlined_scalar,
    duckdb_owned_scalar, first_refusal, has_map_pairs, nested_mismatch_text, Decoded, DuckdbValue,
    Wording,
};
use datafusion_ducklake::error::DuckLakeError;
use datafusion_ducklake::inlined::{
    begin_inlined_scan, is_inlined_data_table, project_columns, quote_present, InlinedScan,
};
use datafusion_ducklake::sqlite_values::{
    cannot_decode_text, inlined_column, storage_class, InlinedCell, InlinedColumn, SqliteCell,
    StorageClass,
};
use datafusion_ducklake::types::{DataType, Field, TimeUnit};

fn strings(values: &[&str]) -> Vec<String> {
    values.iter().map(|value| value.to_string()).collect()
}

fn wording() -> Wording {
    Wording {
        column: "c".to_string(),
        data_type: "Int32".to_string(),
        value_type: "Text".to_string(),
        remediation: "flush it".to_string(),
    }
}

/// The cells of the column `c`, stored as they are.
fn converted(data_type: DataType, cells: Vec<SqliteCell>) -> Result<InlinedColumn, DuckLakeError> {
    inlined_column(&data_type, "c", &strings(&["c"]), &cells)
}

#[test]
fn inlined_tables_are_known_by_their_names() {
    assert!(is_inlined_data_table("ducklake_inlined_data_3_1"));
    assert!(!is_inlined_data_table("ducklake_data_file"));
    assert!(!is_inlined_data_table("ducklake_inlined_data_3_1; DROP TABLE x"));
}

#[test]
fn columns_that_a_table_lacks_are_null() {
    let columns = strings(&["id", "na\"me", "gone"]);
    let present = strings(&["na\"me", "id"]);
    assert_eq!(quote_present(&columns, &present, '"'), strings(&["\"id\"", "\"na\"\"me\""]));
    let projected = project_columns(&columns, &strings(&["a", "b", "c"]), &present, "NULL");
    assert_eq!(projected, "a, b, NULL");
}

#[test]
fn every_registered_table_is_read() {
    let scan: InlinedScan<i32> = begin_inlined_scan(true);
    let scan = scan
        .registered(strings(&["ducklake_inlined_data_1_1", "other", "ducklake_inlined_data_1_2"]))
        .with_columns(strings(&["id"]))
        .with_rows(Some(10))
        .with_columns(strings(&["id"]))
        .with_rows(None);
    match scan {
        InlinedScan::Done(batches) => assert_eq!(batches, vec![("ducklake_inlined_data_1_1".to_string(), 10)]),
        _ => panic!("the scan is not complete"),
    }
    let none: InlinedScan<i32> = begin_inlined_scan(false);
    assert!(matches!(none, InlinedScan::Done(batches) if batches.is_empty()));
}

#[test]
fn sqlite_integers_are_narrowed_to_their_columns() {
    assert_eq!(storage_class(&DataType::Int32), StorageClass::Integer);
    assert_eq!(storage_class(&DataType::Float64), StorageClass::Real);
    assert_eq!(storage_class(&DataType::Binary), StorageClass::Blob);
    assert_eq!(storage_class(&DataType::Utf8), StorageClass::Text);
    assert_eq!(
        converted(DataType::Int32, vec![SqliteCell::Integer(7), SqliteCell::Null]),
        Ok(InlinedColumn::Cells(vec![InlinedCell::Int32(7), InlinedCell::Null]))
    );
    assert_eq!(
        converted(DataType::Boolean, vec![SqliteCell::Integer(2)]),
        Ok(InlinedColumn::Cells(vec![InlinedCell::Boolean(true)]))
    );
    assert_eq!(
        inlined_column(&DataType::Int32, "gone", &strings(&["c"]), &vec![]),
        Ok(InlinedColumn::Missing)
    );
}

#[test]
fn sqlite_keeps_unsigned_numbers_as_text() {
    assert_eq!(
        converted(
            DataType::UInt64,
            vec![SqliteCell::Text("18446744073709551615".to_string())]
        ),
        Ok(InlinedColumn::Cells(vec![InlinedCell::UInt64(u64::MAX)]))
    );
    assert_eq!(
        converted(DataType::UInt64, vec![SqliteCell::Text("-1".to_string())]),
        Err(DuckLakeError::InvalidConfig(
            "invalid inlined UInt64 value for column 'c': invalid digit found in string".to_string()
        ))
    );
    assert_eq!(
        converted(DataType::UInt64, vec![SqliteCell::Text("".to_string())]),
        Err(DuckLakeError::InvalidConfig(
            "invalid inlined UInt64 value for column 'c': cannot parse integer from empty string"
                .to_string()
        ))
    );
}

#[test]
fn fixed_size_bytes_have_their_size() {
    assert_eq!(
        converted(DataType::FixedSizeBinary(2), vec![SqliteCell::Blob(vec![1, 2])]),
        Ok(InlinedColumn::Cells(vec![InlinedCell::Blob(vec![1, 2])]))
    );
    assert_eq!(
        converted(DataType::FixedSizeBinary(2), vec![SqliteCell::Blob(vec![1])]),
        Err(DuckLakeError::InvalidConfig(
            "inlined data column 'c' expected 2 bytes, was 1".to_string()
        ))
    );
    assert_eq!(
        cannot_decode_text("c", "Date32", "x", "flush it"),
        "inlined data column 'c' type Date32 cannot decode 'x'; flush it"
    );
}

#[test]
fn duckdb_text_has_to_be_utf8() {
    assert_eq!(decode_duckdb_text(&vec![104, 105], "c"), Ok("hi".to_string()));
    assert_eq!(
        decode_duckdb_text(&vec![104, 255], "c"),
        Err("inlined data for column 'c' contains invalid UTF-8: invalid utf-8 sequence of 1 \
             bytes from index 1"
            .to_string())
    );
}

#[test]
fn times_are_converted_without_loss_or_not_at_all() {
    assert_eq!(convert_time(5, TimeUnit::Second, TimeUnit::Microsecond), Some(5_000_000));
    assert_eq!(convert_time(5_000_000, TimeUnit::Microsecond, TimeUnit::Second), Some(5));
    assert_eq!(convert_time(i64::MAX, TimeUnit::Second, TimeUnit::Nanosecond), None);
    // What one direction gives, the other takes back.
    let nanos = convert_time(-7, TimeUnit::Millisecond, TimeUnit::Nanosecond).expect("in range");
    assert_eq!(convert_time(nanos, TimeUnit::Nanosecond, TimeUnit::Millisecond), Some(-7));
}

#[test]
fn a_mismatch_is_told_apart_from_a_refusal() {
    assert_eq!(
        duckdb_owned_scalar(&DuckdbValue::Int(1), &DataType::Int64, "c"),
        Decoded::Mismatch
    );
    match duckdb_inlined_scalar(&DuckdbValue::Text("x".to_string()), &DataType::Int32, &wording()) {
        Decoded::Refused(message) => assert_eq!(
            message,
            "inlined data for column 'c' has DuckDB type Text, which cannot be decoded as Int32; \
             flush it"
        ),
        other => panic!("{other:?}"),
    }
    assert_eq!(duckdb_inlined_scalar(&DuckdbValue::Null, &DataType::Int32, &wording()), Decoded::Null);
    let person = DataType::Struct(vec![Field { name: "age".to_string(), data_type: DataType::Int32 }]);
    assert_eq!(
        duckdb_owned_scalar(&DuckdbValue::Struct(vec![]), &person, "c"),
        Decoded::Struct(vec![Decoded::Refused(
            "inlined data column 'c' DuckDB struct is missing field 'age'".to_string()
        )])
    );
    assert_eq!(
        cannot_rebuild_text("c", "List(Int32)", "Union"),
        "inlined data column 'c' cannot rebuild List(Int32) from DuckDB Union"
    );
    assert_eq!(
        nested_mismatch_text("c", "Int(1)", "Int64"),
        "inlined data column 'c' DuckDB nested value Int(1) cannot decode as Int64"
    );
}

#[test]
fn a_nested_value_is_refused_for_its_first_refused_part() {
    let refused = |message: &str| Decoded::Refused(message.to_string());
    let whole = Decoded::List(vec![Decoded::Int32(1), Decoded::Null]);
    assert_eq!(first_refusal(&whole), None);
    assert_eq!(first_refusal(&Decoded::List(vec![])), None);
    assert_eq!(first_refusal(&Decoded::Mismatch), Some(&Decoded::Mismatch));
    let nested = Decoded::Struct(vec![
        Decoded::Int32(1),
        Decoded::List(vec![Decoded::Boolean(true), refused("inner")]),
        refused("outer"),
    ]);
    assert_eq!(first_refusal(&nested), Some(&refused("inner")));
    // The key of an entry comes before its value, and both before the next entry.
    let entries = Decoded::MapEntries(vec![
        (Decoded::Int32(1), Decoded::Mismatch),
        (refused("key"), refused("value")),
    ]);
    assert_eq!(first_refusal(&entries), Some(&Decoded::Mismatch));
    let entries = Decoded::MapEntries(vec![(refused("key"), refused("value"))]);
    assert_eq!(first_refusal(&entries), Some(&refused("key")));
    // A struct that lacks a field, as it is decoded.
    let fields = vec![
        Field { name: "a".to_string(), data_type: DataType::Int32 },
        Field { name: "b".to_string(), data_type: DataType::Int32 },
    ];
    let value = DuckdbValue::Struct(vec![("a".to_string(), DuckdbValue::Boolean(true))]);
    let decoded = duckdb_owned_scalar(&value, &DataType::Struct(fields), "c");
    assert_eq!(first_refusal(&decoded), Some(&Decoded::Mismatch));
}

#[test]
fn maps_need_a_key_and_a_value() {
    let field = |name: &str| Field { name: name.to_string(), data_type: DataType::Int32 };
    let map = |fields: Vec<Field>| DataType::MapEntries(Box::new(DataType::Struct(fields)));
    assert!(has_map_pairs(&DataType::Int32));
    assert!(has_map_pairs(&map(vec![field("key"), field("value")])));
    assert!(!has_map_pairs(&map(vec![field("key")])));
    let inner = Field { name: "m".to_string(), data_type: map(vec![field("key")]) };
    assert!(!has_map_pairs(&DataType::List(Box::new(DataType::Struct(vec![field("a"), inner])))));
}
