use turbo_mysql_core::resultset::{serialize_result, Cell, ColumnDescriptor};

fn blob(body: &[u8]) -> Vec<u8> {
    let mut out = (body.len() as u32).to_le_bytes().to_vec();
    out.extend_from_slice(body);
    out
}

fn header(affected: u64, last_id: u64, ncols: u32) -> Vec<u8> {
    let mut out = vec![1u8];
    out.extend_from_slice(&affected.to_le_bytes());
    out.extend_from_slice(&last_id.to_le_bytes());
    out.extend_from_slice(&ncols.to_le_bytes());
    out
}

fn column(name: &[u8], type_code: u16, charset_id: u16) -> Vec<u8> {
    let mut out = blob(name);
    out.extend_from_slice(&type_code.to_le_bytes());
    out.extend_from_slice(&charset_id.to_le_bytes());
    out
}

#[test]
fn zero_rows_still_serialize_the_full_header() {
    let columns = vec![
        ColumnDescriptor { name: b"id".to_vec(), type_code: 3, charset_id: 63 },
        ColumnDescriptor { name: b"name".to_vec(), type_code: 253, charset_id: 224 },
    ];
    let rows: Vec<Vec<Cell>> = Vec::new();
    let buf = serialize_result(&columns, &rows, 5, 9);
    let mut expected = header(5, 9, 2);
    expected.extend_from_slice(&column(b"id", 3, 63));
    expected.extend_from_slice(&column(b"name", 253, 224));
    expected.extend_from_slice(&0u32.to_le_bytes());
    assert_eq!(buf, expected);
}

#[test]
fn empty_result_is_header_only() {
    let columns: Vec<ColumnDescriptor> = Vec::new();
    let rows: Vec<Vec<Cell>> = Vec::new();
    let buf = serialize_result(&columns, &rows, 3, 0);
    let mut expected = header(3, 0, 0);
    expected.extend_from_slice(&0u32.to_le_bytes());
    assert_eq!(buf, expected);
    assert_eq!(buf.len(), 25);
}

#[test]
fn every_cell_kind_serializes_to_its_payload() {
    let columns = vec![
        ColumnDescriptor { name: b"a".to_vec(), type_code: 0, charset_id: 0 },
        ColumnDescriptor { name: b"b".to_vec(), type_code: 0, charset_id: 0 },
        ColumnDescriptor { name: b"c".to_vec(), type_code: 0, charset_id: 0 },
        ColumnDescriptor { name: b"d".to_vec(), type_code: 0, charset_id: 0 },
        ColumnDescriptor { name: b"e".to_vec(), type_code: 0, charset_id: 0 },
    ];
    let rows = vec![vec![
        Cell::Null,
        Cell::Int(-1),
        Cell::UInt(7),
        Cell::DoubleBits((2.5f64).to_bits()),
        Cell::Bytes(b"text".to_vec()),
    ]];
    let buf = serialize_result(&columns, &rows, 0, 0);
    let mut expected = header(0, 0, 5);
    for name in [b"a", b"b", b"c", b"d", b"e"] {
        expected.extend_from_slice(&column(name, 0, 0));
    }
    expected.extend_from_slice(&1u32.to_le_bytes());
    expected.push(0);
    expected.push(1);
    expected.extend_from_slice(&blob(&(-1i64).to_le_bytes()));
    expected.push(1);
    expected.extend_from_slice(&blob(&7u64.to_le_bytes()));
    expected.push(1);
    expected.extend_from_slice(&blob(&(2.5f64).to_le_bytes()));
    expected.push(1);
    expected.extend_from_slice(&blob(b"text"));
    assert_eq!(buf, expected);
}

#[test]
fn temporal_cells_serialize_as_text() {
    let columns = vec![
        ColumnDescriptor { name: b"d".to_vec(), type_code: 12, charset_id: 63 },
        ColumnDescriptor { name: b"t".to_vec(), type_code: 11, charset_id: 63 },
    ];
    let rows = vec![vec![
        Cell::Date { year: 2024, month: 1, day: 5, hour: 7, minute: 8, second: 9, micro: 123 },
        Cell::Time { negative: true, days: 1, hours: 2, minutes: 3, seconds: 4, micro: 5 },
    ]];
    let buf = serialize_result(&columns, &rows, 0, 0);
    let mut expected = header(0, 0, 2);
    expected.extend_from_slice(&column(b"d", 12, 63));
    expected.extend_from_slice(&column(b"t", 11, 63));
    expected.extend_from_slice(&1u32.to_le_bytes());
    expected.push(1);
    expected.extend_from_slice(&blob(b"2024-01-05 07:08:09.000123"));
    expected.push(1);
    expected.extend_from_slice(&blob(b"-26:03:04.000005"));
    assert_eq!(buf, expected);
}

#[test]
fn wide_temporal_fields_keep_all_digits() {
    let columns = vec![ColumnDescriptor { name: b"t".to_vec(), type_code: 11, charset_id: 63 }];
    let rows = vec![vec![Cell::Time {
        negative: false,
        days: 5000,
        hours: 3,
        minutes: 59,
        seconds: 59,
        micro: 999999,
    }]];
    let buf = serialize_result(&columns, &rows, 0, 0);
    let mut expected = header(0, 0, 1);
    expected.extend_from_slice(&column(b"t", 11, 63));
    expected.extend_from_slice(&1u32.to_le_bytes());
    expected.push(1);
    expected.extend_from_slice(&blob(b"120003:59:59.999999"));
    assert_eq!(buf, expected);
}

#[test]
fn short_rows_are_padded_with_null_cells() {
    let columns = vec![
        ColumnDescriptor { name: b"a".to_vec(), type_code: 3, charset_id: 63 },
        ColumnDescriptor { name: b"b".to_vec(), type_code: 3, charset_id: 63 },
    ];
    let rows = vec![vec![Cell::Int(1)]];
    let buf = serialize_result(&columns, &rows, 1, 0);
    let mut expected = header(1, 0, 2);
    expected.extend_from_slice(&column(b"a", 3, 63));
    expected.extend_from_slice(&column(b"b", 3, 63));
    expected.extend_from_slice(&1u32.to_le_bytes());
    expected.push(1);
    expected.extend_from_slice(&blob(&1i64.to_le_bytes()));
    expected.push(0);
    assert_eq!(buf, expected);
}
