use turbo_mysql_core::batch::{
    accumulate_outcomes, plan_batch, rows_per_chunk, split_columns, BatchAccumulator, BatchError,
    ChunkOutcome,
};
use turbo_mysql_core::value::Value;

fn batch_buffer(rows: &[&[Value]]) -> Vec<u8> {
    let mut buf = (rows.len() as u32).to_le_bytes().to_vec();
    for row in rows {
        for v in *row {
            match v {
                Value::Null => buf.push(0),
                Value::Int(i) => {
                    buf.push(1);
                    buf.extend_from_slice(&i.to_le_bytes());
                },
                Value::Double(bits) => {
                    buf.push(2);
                    buf.extend_from_slice(&bits.to_le_bytes());
                },
                Value::Bytes(b) => {
                    buf.push(4);
                    buf.extend_from_slice(&(b.len() as u32).to_le_bytes());
                    buf.extend_from_slice(b);
                },
            }
        }
    }
    buf
}

#[test]
fn two_rows_two_columns_build_one_statement() {
    let rows: Vec<Vec<Value>> = vec![
        vec![Value::Int(1), Value::Bytes(b"x".to_vec())],
        vec![Value::Int(2), Value::Bytes(b"y".to_vec())],
    ];
    let row_refs: Vec<&[Value]> = rows.iter().map(|r| r.as_slice()).collect();
    let data = batch_buffer(&row_refs);
    let plan = plan_batch(b"t", b"a,b", &data, false).unwrap();
    assert_eq!(plan.len(), 1);
    assert_eq!(plan[0].sql, b"INSERT INTO t (a,b) VALUES (?,?),(?,?)".to_vec());
    assert_eq!(
        plan[0].params,
        vec![
            Value::Int(1),
            Value::Bytes(b"x".to_vec()),
            Value::Int(2),
            Value::Bytes(b"y".to_vec()),
        ]
    );
}

#[test]
fn upsert_appends_the_update_clause_listing_every_column_once() {
    let rows: Vec<Vec<Value>> = vec![vec![Value::Int(1), Value::Int(2)]];
    let row_refs: Vec<&[Value]> = rows.iter().map(|r| r.as_slice()).collect();
    let data = batch_buffer(&row_refs);
    let plain = plan_batch(b"t", b"a,b", &data, false).unwrap();
    let upsert = plan_batch(b"t", b"a,b", &data, true).unwrap();
    assert_eq!(
        upsert[0].sql,
        b"INSERT INTO t (a,b) VALUES (?,?) ON DUPLICATE KEY UPDATE a = VALUES(a), b = VALUES(b)"
            .to_vec()
    );
    let mut expected = plain[0].sql.clone();
    expected.extend_from_slice(b" ON DUPLICATE KEY UPDATE a = VALUES(a), b = VALUES(b)");
    assert_eq!(upsert[0].sql, expected);
}

#[test]
fn zero_rows_plan_no_statements() {
    let data = 0u32.to_le_bytes().to_vec();
    let plan = plan_batch(b"t", b"a,b", &data, false).unwrap();
    assert!(plan.is_empty());
    let totals = accumulate_outcomes(&Vec::new());
    assert_eq!(totals.total_affected, 0);
    assert_eq!(totals.last_insert_id, 0);
}

#[test]
fn missing_row_count_is_rejected() {
    let r = plan_batch(b"t", b"a", &[1, 2], false);
    assert_eq!(r.unwrap_err(), BatchError::MissingRowCount);
    assert_eq!(BatchError::MissingRowCount.message(), "Failed to read row count");
}

#[test]
fn empty_column_list_is_rejected() {
    let data = 1u32.to_le_bytes().to_vec();
    let r = plan_batch(b"t", b"", &data, false);
    assert_eq!(r.unwrap_err(), BatchError::NoColumns);
    assert_eq!(BatchError::NoColumns.message(), "No columns specified");
}

#[test]
fn chunk_count_is_the_ceiling_of_rows_over_rows_per_chunk() {
    let n: u32 = 60001;
    let mut data = n.to_le_bytes().to_vec();
    for _ in 0..n {
        data.push(0);
    }
    let plan = plan_batch(b"t", b"a", &data, false).unwrap();
    assert_eq!(plan.len(), 2);
    assert_eq!(plan[0].params.len(), 60000);
    assert_eq!(plan[1].params.len(), 1);
    assert_eq!(plan[1].sql, b"INSERT INTO t (a) VALUES (?)".to_vec());
    assert!(plan[0].sql.starts_with(b"INSERT INTO t (a) VALUES (?),(?),"));
}

#[test]
fn rows_per_chunk_respects_the_placeholder_budget() {
    assert_eq!(rows_per_chunk(1), 60000);
    assert_eq!(rows_per_chunk(7), 8571);
    assert_eq!(rows_per_chunk(60000), 1);
    assert_eq!(rows_per_chunk(100000), 1);
}

#[test]
fn short_value_data_is_padded_with_nulls() {
    let data = 2u32.to_le_bytes().to_vec();
    let plan = plan_batch(b"t", b"a,b", &data, false).unwrap();
    assert_eq!(plan.len(), 1);
    assert_eq!(
        plan[0].params,
        vec![Value::Null, Value::Null, Value::Null, Value::Null]
    );
}

#[test]
fn split_columns_matches_comma_splitting() {
    let cols = split_columns(b"a,b");
    assert_eq!(cols, vec![b"a".to_vec(), b"b".to_vec()]);
    let cols = split_columns(b"a,,c");
    assert_eq!(cols, vec![b"a".to_vec(), Vec::new(), b"c".to_vec()]);
    let trailing = split_columns(b"a,");
    assert_eq!(trailing, vec![b"a".to_vec(), Vec::new()]);
    assert!(split_columns(b"").is_empty());
}

#[test]
fn totals_sum_affected_rows_and_keep_last_nonzero_id() {
    let outcomes = vec![
        ChunkOutcome { affected_rows: 2, last_insert_id: 0 },
        ChunkOutcome { affected_rows: 3, last_insert_id: 7 },
        ChunkOutcome { affected_rows: 4, last_insert_id: 0 },
    ];
    let totals = accumulate_outcomes(&outcomes);
    assert_eq!(totals.total_affected, 9);
    assert_eq!(totals.last_insert_id, 7);
}

#[test]
fn later_nonzero_id_replaces_an_earlier_one() {
    let mut acc = BatchAccumulator::new();
    acc.absorb(1, 5);
    acc.absorb(1, 0);
    acc.absorb(1, 11);
    assert_eq!(acc.total_affected, 3);
    assert_eq!(acc.last_insert_id, 11);
}

#[test]
fn affected_total_saturates_at_the_limit() {
    let outcomes = vec![
        ChunkOutcome { affected_rows: u64::MAX, last_insert_id: 0 },
        ChunkOutcome { affected_rows: 2, last_insert_id: 0 },
    ];
    let totals = accumulate_outcomes(&outcomes);
    assert_eq!(totals.total_affected, u64::MAX);
}
