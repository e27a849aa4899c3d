use hiss_native::{query_result, ColumnInfo, CompactValue, MultiSetWriter, PyRowWriter};

fn cols(names: &[&str]) -> Vec<ColumnInfo> {
    names.iter().map(|n| ColumnInfo { name: n.to_string() }).collect()
}

#[test]
fn row_writer_stores_rows_row_major() {
    let mut w = PyRowWriter::new(2);
    assert_eq!(w.row_count(), 0);
    w.push(CompactValue::I64(1));
    w.push(CompactValue::I64(2));
    w.finish_row();
    w.push(CompactValue::I64(3));
    w.push(CompactValue::Null);
    w.finish_row();
    assert_eq!(w.row_count(), 2);
    assert_eq!(w.get(0, 1), &CompactValue::I64(2));
    assert_eq!(w.get(1, 0), &CompactValue::I64(3));
    assert_eq!(w.get(1, 1), &CompactValue::Null);
}

#[test]
fn zero_column_writer_has_no_rows() {
    let w = PyRowWriter::new(0);
    assert_eq!(w.row_count(), 0);
}

#[test]
fn no_metadata_means_no_tables() {
    let mut m = MultiSetWriter::new();
    m.write_i64(0, 5);
    m.on_row_done();
    m.on_info(5701, "changed database context");
    assert!(m.finalize().is_empty());
}

#[test]
fn two_selects_and_an_echo_give_three_tables() {
    let mut m = MultiSetWriter::new();
    m.on_metadata(cols(&["a"]));
    m.write_i32(0, 1);
    m.on_row_done();
    m.write_i32(0, 2);
    m.on_row_done();
    m.on_metadata(cols(&["b", "c"]));
    m.write_str(0, "x");
    m.write_bool(1, true);
    m.on_row_done();
    m.on_metadata(cols(&[]));
    let sets = m.finalize();
    assert_eq!(sets.len(), 3);
    assert_eq!(sets[0].0, cols(&["a"]));
    assert_eq!(sets[0].1.row_count(), 2);
    assert_eq!(sets[1].0, cols(&["b", "c"]));
    assert_eq!(sets[1].1.values, vec![CompactValue::Str("x".to_string()), CompactValue::Bool(true)]);
    assert_eq!(sets[2].0.len(), 0);

    let (names, values, rows, ncols) = query_result(sets).unwrap();
    assert_eq!(names, vec!["a".to_string()]);
    assert_eq!(values, vec![CompactValue::I64(1), CompactValue::I64(2)]);
    assert_eq!((rows, ncols), (2, 1));
}

#[test]
fn query_skips_tables_without_columns() {
    let mut m = MultiSetWriter::new();
    m.on_metadata(cols(&[]));
    m.on_metadata(cols(&["n"]));
    m.write_decimal(0, 12345, 10, 2);
    m.on_row_done();
    let (names, values, rows, ncols) = query_result(m.finalize()).unwrap();
    assert_eq!(names, vec!["n".to_string()]);
    assert_eq!(values, vec![CompactValue::Decimal(12345, 10, 2)]);
    assert_eq!((rows, ncols), (1, 1));
}

#[test]
fn query_without_any_columns_is_none() {
    let mut m = MultiSetWriter::new();
    m.on_metadata(cols(&[]));
    assert!(query_result(m.finalize()).is_none());
    assert!(query_result(Vec::new()).is_none());
}

#[test]
fn writes_map_to_compact_values() {
    let mut m = MultiSetWriter::new();
    m.on_metadata(cols(&["v"]));
    m.write_u8(0, 200);
    m.write_i16(0, -3);
    m.write_f64(0, 2.5f64.to_bits());
    m.write_bytes(0, &[9, 8]);
    m.write_date(0, 1);
    m.write_time(0, 7);
    m.write_datetime(0, -7);
    m.write_datetimeoffset(0, 11, -30);
    m.write_guid(0, &[7u8; 16]);
    m.write_null(0);
    m.on_row_done();
    let sets = m.finalize();
    assert_eq!(
        sets[0].1.values,
        vec![
            CompactValue::I64(200),
            CompactValue::I64(-3),
            CompactValue::F64(2.5f64.to_bits()),
            CompactValue::Bytes(vec![9, 8]),
            CompactValue::Date(1),
            CompactValue::Time(7),
            CompactValue::DateTime(-7),
            CompactValue::DateTimeOffset(11, -30),
            CompactValue::Guid([7u8; 16]),
            CompactValue::Null,
        ]
    );
}
