//! The batch chunker: turns a flat, pre-decoded row buffer plus a column
//! list into one or more bulk INSERT (optionally upsert) statements,
//! respecting the placeholder budget the backing client can bind in one
//! statement.
//!
//! The input buffer is `u32 row_count || row_count * column_count values`;
//! the column count comes from the comma-joined column-name text, which is
//! neither escaped nor validated here — callers supply safe identifiers.

use crate::value::{
    spec_decode_cursor, spec_decode_values, parse_value, SpecValue, Value,
};
use crate::wire::BinaryReader;
use vstd::prelude::*;
use vstd::slice::{slice_subrange, slice_to_vec};

verus! {

/// Cap on bound parameters per statement, kept well under typical server
/// limits.
pub const MAX_PLACEHOLDERS: usize = 60000;

/// The bytes of `"INSERT INTO "`.
pub open spec fn spec_kw_insert_into() -> Seq<u8> {
    seq![73u8, 78u8, 83u8, 69u8, 82u8, 84u8, 32u8, 73u8, 78u8, 84u8, 79u8, 32u8]
}

/// The bytes of `" ("`.
pub open spec fn spec_kw_open_columns() -> Seq<u8> {
    seq![32u8, 40u8]
}

/// The bytes of `") VALUES "`.
pub open spec fn spec_kw_values() -> Seq<u8> {
    seq![41u8, 32u8, 86u8, 65u8, 76u8, 85u8, 69u8, 83u8, 32u8]
}

/// The bytes of `" ON DUPLICATE KEY UPDATE "`.
pub open spec fn spec_kw_on_duplicate() -> Seq<u8> {
    seq![
        32u8,
        79u8,
        78u8,
        32u8,
        68u8,
        85u8,
        80u8,
        76u8,
        73u8,
        67u8,
        65u8,
        84u8,
        69u8,
        32u8,
        75u8,
        69u8,
        89u8,
        32u8,
        85u8,
        80u8,
        68u8,
        65u8,
        84u8,
        69u8,
        32u8,
    ]
}

/// The bytes of `" = VALUES("`.
pub open spec fn spec_kw_eq_values() -> Seq<u8> {
    seq![32u8, 61u8, 32u8, 86u8, 65u8, 76u8, 85u8, 69u8, 83u8, 40u8]
}

/// Index of the first comma in `s`, or `s.len()` when there is none.
pub open spec fn spec_first_comma(s: Seq<u8>) -> int
    decreases s.len(),
{
    if s.len() == 0 {
        0
    } else if s[0] == 44 {
        0
    } else {
        1 + spec_first_comma(s.drop_first())
    }
}

/// Splits a nonempty byte string at its commas, as the usual string split
/// does: `n` commas give `n + 1` segments, empty segments included.
pub open spec fn spec_split_segments(s: Seq<u8>) -> Seq<Seq<u8>>
    decreases s.len(),
{
    let k = spec_first_comma(s);
    if 0 <= k < s.len() {
        seq![s.subrange(0, k)] + spec_split_segments(s.subrange(k + 1, s.len() as int))
    } else {
        seq![s]
    }
}

/// The column names a comma-joined list denotes.  An empty list denotes no
/// columns at all, which a batch call rejects.
pub open spec fn spec_split_columns(csv: Seq<u8>) -> Seq<Seq<u8>> {
    if csv.len() == 0 {
        Seq::empty()
    } else {
        spec_split_segments(csv)
    }
}

/// The first comma really is the first: nothing before it is a comma, and
/// it is a comma when it is inside the string.
proof fn lemma_first_comma_found(s: Seq<u8>, i: int)
    requires
        0 <= i <= s.len(),
        forall|j: int| 0 <= j < i ==> s[j] != 44,
        i < s.len() ==> s[i] == 44,
    ensures
        spec_first_comma(s) == if i < s.len() {
            i
        } else {
            s.len() as int
        },
    decreases i,
{
    if i == 0 {
        if s.len() == 0 {
        } else {
            assert(s[0] == 44);
        }
    } else {
        let t = s.drop_first();
        assert(forall|j: int| 0 <= j < i - 1 ==> t[j] == s[j + 1] && s[j + 1] != 44);
        assert(i - 1 < t.len() ==> t[i - 1] == s[i]);
        lemma_first_comma_found(t, i - 1);
    }
}

/// Finds the first comma, or the length when there is none.
fn find_first_comma(s: &[u8]) -> (k: usize)
    ensures
        k as int == spec_first_comma(s@),
        k <= s@.len(),
        k < s@.len() ==> s@[k as int] == 44,
{
    let n = s.len();
    let mut i: usize = 0;
    while i < n
        invariant
            n == s@.len(),
            0 <= i <= n,
            forall|j: int| 0 <= j < i ==> s@[j] != 44,
        decreases n - i,
    {
        if *vstd::slice::slice_index_get(s, i) == 44 {
            proof {
                lemma_first_comma_found(s@, i as int);
            }
            return i;
        }
        i = i + 1;
    }
    proof {
        lemma_first_comma_found(s@, n as int);
    }
    n
}

/// Splits a byte string at its commas; even an empty string is one (empty)
/// segment, as the usual string split has it.
fn split_segments(s: &[u8]) -> (r: Vec<Vec<u8>>)
    ensures
        r.deep_view() == spec_split_segments(s@),
    decreases s@.len(),
{
    let k = find_first_comma(s);
    if k == s.len() {
        let mut r: Vec<Vec<u8>> = Vec::new();
        r.push(slice_to_vec(s));
        proof {
            assert(r.deep_view() =~~= spec_split_segments(s@));
        }
        r
    } else {
        let head = slice_to_vec(slice_subrange(s, 0, k));
        let rest = slice_subrange(s, k + 1, s.len());
        let mut r: Vec<Vec<u8>> = Vec::new();
        r.push(head);
        let mut tail = split_segments(rest);
        r.append(&mut tail);
        proof {
            assert(r.deep_view() =~~= spec_split_segments(s@));
        }
        r
    }
}

/// Splits the comma-joined column list into column names; an empty list
/// gives no columns.
pub fn split_columns(csv: &[u8]) -> (r: Vec<Vec<u8>>)
    ensures
        r.deep_view() == spec_split_columns(csv@),
{
    if csv.len() == 0 {
        let r: Vec<Vec<u8>> = Vec::new();
        proof {
            assert(r.deep_view() =~~= spec_split_columns(csv@));
        }
        r
    } else {
        split_segments(csv)
    }
}

/// Joins parts with a separator, in order, nothing else: `n` parts appear
/// exactly once each, with `n - 1` separators between them.
pub open spec fn spec_join(parts: Seq<Seq<u8>>, sep: Seq<u8>) -> Seq<u8>
    decreases parts.len(),
{
    if parts.len() == 0 {
        Seq::empty()
    } else if parts.len() == 1 {
        parts[0]
    } else {
        spec_join(parts.drop_last(), sep) + sep + parts.last()
    }
}

/// One placeholder group `(?,?,...,?)` with one `?` per column.
pub open spec fn spec_placeholder_group(ncols: nat) -> Seq<u8> {
    seq![40u8] + spec_join(Seq::new(ncols, |i: int| seq![63u8]), seq![44u8]) + seq![41u8]
}

/// The `VALUES` text of one statement: `k` placeholder groups joined with
/// commas.
pub open spec fn spec_groups(ncols: nat, k: nat) -> Seq<u8> {
    spec_join(Seq::new(k, |i: int| spec_placeholder_group(ncols)), seq![44u8])
}

/// One upsert assignment: `col = VALUES(col)`.
pub open spec fn spec_update_entry(name: Seq<u8>) -> Seq<u8> {
    name + spec_kw_eq_values() + name + seq![41u8]
}

/// The upsert clause: every column exactly once, in order, each as
/// `col = VALUES(col)`, joined with `", "` after `" ON DUPLICATE KEY
/// UPDATE "`.
pub open spec fn spec_upsert_clause(cols: Seq<Seq<u8>>) -> Seq<u8> {
    spec_kw_on_duplicate() + spec_join(
        cols.map_values(|c: Seq<u8>| spec_update_entry(c)),
        seq![44u8, 32u8],
    )
}

/// The full text of one chunk's statement:
/// `INSERT INTO <table> (<columns>) VALUES (?,..),..` and, in upsert mode,
/// the upsert clause.
pub open spec fn spec_chunk_sql(
    table: Seq<u8>,
    csv: Seq<u8>,
    cols: Seq<Seq<u8>>,
    k: nat,
    upsert: bool,
) -> Seq<u8> {
    spec_kw_insert_into() + table + spec_kw_open_columns() + csv + spec_kw_values() + spec_groups(
        cols.len(),
        k,
    ) + if upsert {
        spec_upsert_clause(cols)
    } else {
        Seq::empty()
    }
}

/// Upsert mode appends exactly the upsert clause to the plain statement.
/// The clause lists every column exactly once, in order, each rendered as
/// `col = VALUES(col)`: it is the join of the per-column assignments.
pub proof fn lemma_upsert_appends_clause(
    table: Seq<u8>,
    csv: Seq<u8>,
    cols: Seq<Seq<u8>>,
    k: nat,
)
    ensures
        spec_chunk_sql(table, csv, cols, k, true) == spec_chunk_sql(table, csv, cols, k, false)
            + spec_upsert_clause(cols),
        spec_upsert_clause(cols) == spec_kw_on_duplicate() + spec_join(
            cols.map_values(|c: Seq<u8>| spec_update_entry(c)),
            seq![44u8, 32u8],
        ),
{
    assert(spec_chunk_sql(table, csv, cols, k, false) + spec_upsert_clause(cols) =~= spec_chunk_sql(
        table,
        csv,
        cols,
        k,
        true,
    ));
}

/// Appends bytes to a buffer.
fn push_bytes(buf: &mut Vec<u8>, s: &[u8])
    ensures
        final(buf)@ == old(buf)@ + s@,
{
    buf.extend_from_slice(s);
}

/// Appends one placeholder group `(?,...,?)`.
fn push_placeholder_group(buf: &mut Vec<u8>, ncols: usize)
    requires
        ncols >= 1,
    ensures
        final(buf)@ == old(buf)@ + spec_placeholder_group(ncols as nat),
{
    let ghost marks = Seq::new(ncols as nat, |i: int| seq![63u8]);
    buf.push(40);
    buf.push(63);
    proof {
        assert(marks.subrange(0, 1) =~= seq![seq![63u8]]);
        assert(spec_join(marks.subrange(0, 1), seq![44u8]) =~= seq![63u8]);
        assert(buf@ =~= old(buf)@ + seq![40u8] + spec_join(marks.subrange(0, 1), seq![44u8]));
    }
    let mut i: usize = 1;
    while i < ncols
        invariant
            1 <= i <= ncols,
            marks == Seq::new(ncols as nat, |j: int| seq![63u8]),
            buf@ == old(buf)@ + seq![40u8] + spec_join(marks.subrange(0, i as int), seq![44u8]),
        decreases ncols - i,
    {
        buf.push(44);
        buf.push(63);
        proof {
            let pre = marks.subrange(0, i as int);
            let now = marks.subrange(0, i + 1);
            assert(now.drop_last() =~= pre);
            assert(now.last() =~= seq![63u8]);
            assert(spec_join(now, seq![44u8]) == spec_join(pre, seq![44u8]) + seq![44u8]
                + seq![63u8]);
            assert(buf@ =~= old(buf)@ + seq![40u8] + spec_join(now, seq![44u8]));
        }
        i = i + 1;
    }
    buf.push(41);
    proof {
        assert(marks.subrange(0, ncols as int) =~= marks);
        assert(buf@ =~= old(buf)@ + spec_placeholder_group(ncols as nat));
    }
}

/// Appends `k` placeholder groups joined with commas.
fn push_groups(buf: &mut Vec<u8>, ncols: usize, k: usize)
    requires
        ncols >= 1,
        k >= 1,
    ensures
        final(buf)@ == old(buf)@ + spec_groups(ncols as nat, k as nat),
{
    let ghost groups = Seq::new(k as nat, |i: int| spec_placeholder_group(ncols as nat));
    push_placeholder_group(buf, ncols);
    proof {
        assert(groups.subrange(0, 1) =~= seq![spec_placeholder_group(ncols as nat)]);
        assert(spec_join(groups.subrange(0, 1), seq![44u8]) =~= spec_placeholder_group(
            ncols as nat,
        ));
        assert(buf@ =~= old(buf)@ + spec_join(groups.subrange(0, 1), seq![44u8]));
    }
    let mut i: usize = 1;
    while i < k
        invariant
            ncols >= 1,
            1 <= i <= k,
            groups == Seq::new(k as nat, |j: int| spec_placeholder_group(ncols as nat)),
            buf@ == old(buf)@ + spec_join(groups.subrange(0, i as int), seq![44u8]),
        decreases k - i,
    {
        buf.push(44);
        push_placeholder_group(buf, ncols);
        proof {
            let pre = groups.subrange(0, i as int);
            let now = groups.subrange(0, i + 1);
            assert(now.drop_last() =~= pre);
            assert(now.last() =~= spec_placeholder_group(ncols as nat));
            assert(buf@ =~= old(buf)@ + spec_join(now, seq![44u8]));
        }
        i = i + 1;
    }
    proof {
        assert(groups.subrange(0, k as int) =~= groups);
    }
}

/// Appends the upsert clause for the given columns.
fn push_upsert_clause(buf: &mut Vec<u8>, columns: &Vec<Vec<u8>>)
    requires
        columns@.len() >= 1,
    ensures
        final(buf)@ == old(buf)@ + spec_upsert_clause(columns.deep_view()),
{
    let ghost cols = columns.deep_view();
    let ghost entries = cols.map_values(|c: Seq<u8>| spec_update_entry(c));
    let kw_on_dup: [u8; 25] = [
        32, 79, 78, 32, 68, 85, 80, 76, 73, 67, 65, 84, 69, 32, 75, 69, 89, 32, 85, 80, 68, 65,
        84, 69, 32,
    ];
    proof {
        assert(kw_on_dup@ =~= spec_kw_on_duplicate());
    }
    push_bytes(buf, kw_on_dup.as_slice());
    let kw_eq_values: [u8; 10] = [32, 61, 32, 86, 65, 76, 85, 69, 83, 40];
    proof {
        assert(kw_eq_values@ =~= spec_kw_eq_values());
    }
    let n = columns.len();
    let mut i: usize = 0;
    while i < n
        invariant
            n == columns@.len() == cols.len(),
            cols == columns.deep_view(),
            entries == cols.map_values(|c: Seq<u8>| spec_update_entry(c)),
            kw_eq_values@ == spec_kw_eq_values(),
            0 <= i <= n,
            buf@ == old(buf)@ + spec_kw_on_duplicate() + spec_join(
                entries.subrange(0, i as int),
                seq![44u8, 32u8],
            ),
        decreases n - i,
    {
        if i > 0 {
            buf.push(44);
            buf.push(32);
        }
        let col = &columns[i];
        proof {
            assert(cols[i as int] == columns@[i as int]@);
        }
        push_bytes(buf, col.as_slice());
        push_bytes(buf, kw_eq_values.as_slice());
        push_bytes(buf, col.as_slice());
        buf.push(41);
        proof {
            let pre = entries.subrange(0, i as int);
            let now = entries.subrange(0, i + 1);
            assert(entries[i as int] == spec_update_entry(cols[i as int]));
            assert(now.drop_last() =~= pre);
            assert(now.last() == entries[i as int]);
            if i == 0 {
                assert(spec_join(now, seq![44u8, 32u8]) == entries[0]);
                assert(buf@ =~= old(buf)@ + spec_kw_on_duplicate() + spec_join(
                    now,
                    seq![44u8, 32u8],
                ));
            } else {
                assert(spec_join(now, seq![44u8, 32u8]) == spec_join(pre, seq![44u8, 32u8])
                    + seq![44u8, 32u8] + entries[i as int]);
                assert(buf@ =~= old(buf)@ + spec_kw_on_duplicate() + spec_join(
                    now,
                    seq![44u8, 32u8],
                ));
            }
        }
        i = i + 1;
    }
    proof {
        assert(entries.subrange(0, n as int) =~= entries);
    }
}

/// Builds the statement text of one chunk of `k` rows.
pub fn build_chunk_sql(
    table: &[u8],
    columns_csv: &[u8],
    columns: &Vec<Vec<u8>>,
    k: usize,
    upsert: bool,
) -> (r: Vec<u8>)
    requires
        columns@.len() >= 1,
        k >= 1,
    ensures
        r@ == spec_chunk_sql(table@, columns_csv@, columns.deep_view(), k as nat, upsert),
{
    let mut buf: Vec<u8> = Vec::new();
    let kw_insert: [u8; 12] = [73, 78, 83, 69, 82, 84, 32, 73, 78, 84, 79, 32];
    proof {
        assert(kw_insert@ =~= spec_kw_insert_into());
    }
    push_bytes(&mut buf, kw_insert.as_slice());
    push_bytes(&mut buf, table);
    buf.push(32);
    buf.push(40);
    push_bytes(&mut buf, columns_csv);
    let kw_values: [u8; 9] = [41, 32, 86, 65, 76, 85, 69, 83, 32];
    proof {
        assert(kw_values@ =~= spec_kw_values());
    }
    push_bytes(&mut buf, kw_values.as_slice());
    push_groups(&mut buf, columns.len(), k);
    if upsert {
        push_upsert_clause(&mut buf, columns);
    }
    proof {
        assert(buf@ =~= spec_chunk_sql(
            table@,
            columns_csv@,
            columns.deep_view(),
            k as nat,
            upsert,
        ));
    }
    buf
}

/// One statement of a batch plan: its text and its positional parameters.
#[derive(Debug)]
pub struct BatchStatement {
    pub sql: Vec<u8>,
    pub params: Vec<Value>,
}

/// Mathematical model of a `BatchStatement`.
pub struct SpecBatchStatement {
    pub sql: Seq<u8>,
    pub params: Seq<SpecValue>,
}

impl View for BatchStatement {
    type V = SpecBatchStatement;

    open spec fn view(&self) -> SpecBatchStatement {
        SpecBatchStatement { sql: self.sql@, params: self.params.deep_view() }
    }
}

impl DeepView for BatchStatement {
    type V = SpecBatchStatement;

    open spec fn deep_view(&self) -> SpecBatchStatement {
        self.view()
    }
}

/// Why a batch buffer was rejected before any statement was built.  These
/// are the structural checks: a row count that cannot be read aborts the
/// operation, unlike the defensive per-value decoding.
#[derive(Debug, Clone, Copy, PartialEq, Eq, Structural)]
pub enum BatchError {
    MissingRowCount,
    NoColumns,
}

impl BatchError {
    /// The message the error envelope carries.
    pub fn message(&self) -> (r: &'static str)
        ensures
            *self is MissingRowCount ==> r@ == "Failed to read row count"@,
            *self is NoColumns ==> r@ == "No columns specified"@,
    {
        match self {
            BatchError::MissingRowCount => "Failed to read row count",
            BatchError::NoColumns => "No columns specified",
        }
    }
}

/// Rows per statement under the placeholder budget: `floor(60000 / ncols)`,
/// but at least one row.
pub open spec fn spec_rows_per_chunk(ncols: nat) -> nat
    recommends
        ncols >= 1,
{
    let q = (MAX_PLACEHOLDERS as nat) / ncols;
    if q == 0 {
        1
    } else {
        q
    }
}

pub open spec fn spec_ceil_div(n: nat, d: nat) -> nat
    recommends
        d >= 1,
{
    ((n + d - 1) as nat) / d
}

/// How many rows chunk `i` of a batch of `n` rows carries: a full chunk of
/// `rpc` rows, except the shorter final one.
pub open spec fn spec_chunk_rows(n: nat, rpc: nat, i: nat) -> nat
    recommends
        rpc >= 1,
        i * rpc < n,
{
    if n - i * rpc < rpc {
        (n - i * rpc) as nat
    } else {
        rpc
    }
}

pub fn rows_per_chunk(ncols: usize) -> (r: usize)
    requires
        ncols >= 1,
    ensures
        r as nat == spec_rows_per_chunk(ncols as nat),
        1 <= r <= MAX_PLACEHOLDERS,
{
    let q = MAX_PLACEHOLDERS / ncols;
    if q == 0 {
        1
    } else {
        q
    }
}

/// Builds the batch plan: reads the `u32` row count, splits the column
/// list, and partitions the rows into consecutive statements of at most
/// `floor(60000 / column_count)` rows each, decoding exactly
/// `row_count * column_count` values in order.  Zero rows plan nothing and
/// succeed; a missing row count or an empty column list rejects the batch
/// before any statement is built.
pub fn plan_batch(table: &[u8], columns_csv: &[u8], data: &[u8], upsert: bool) -> (r: Result<
    Vec<BatchStatement>,
    BatchError,
>)
    ensures
        data@.len() < 4 ==> r == Err::<Vec<BatchStatement>, BatchError>(
            BatchError::MissingRowCount,
        ),
        data@.len() >= 4 ==> ({
            let n = vstd::bytes::spec_u32_from_le_bytes(data@.subrange(0, 4)) as nat;
            let cols = spec_split_columns(columns_csv@);
            let rpc = spec_rows_per_chunk(cols.len());
            if n == 0 {
                r matches Ok(plan) && plan@.len() == 0
            } else if cols.len() == 0 {
                r == Err::<Vec<BatchStatement>, BatchError>(BatchError::NoColumns)
            } else {
                r matches Ok(plan) && {
                    &&& plan.deep_view().len() == spec_ceil_div(n, rpc)
                    &&& forall|i: int|
                        0 <= i < plan.deep_view().len() ==> {
                            let stmt = #[trigger] plan.deep_view()[i];
                            &&& stmt.sql == spec_chunk_sql(
                                table@,
                                columns_csv@,
                                cols,
                                spec_chunk_rows(n, rpc, i as nat),
                                upsert,
                            )
                            &&& stmt.params == spec_decode_values(
                                data@,
                                spec_decode_cursor(data@, 4, (i * rpc * cols.len()) as nat),
                                spec_chunk_rows(n, rpc, i as nat) * cols.len(),
                            )
                        }
                }
            }
        }),
{
    let ghost cols = spec_split_columns(columns_csv@);
    let mut reader = BinaryReader::new(data);
    let num_rows: u32 = match reader.read_u32() {
        Some(v) => v,
        None => {
            return Err(BatchError::MissingRowCount);
        },
    };
    if num_rows == 0 {
        return Ok(Vec::new());
    }
    let columns = split_columns(columns_csv);
    let ncols = columns.len();
    if ncols == 0 {
        return Err(BatchError::NoColumns);
    }
    let rpc = rows_per_chunk(ncols);
    let ghost n = num_rows as nat;
    let ghost c = ncols as nat;
    let ghost rpcn = rpc as nat;
    let mut chunks: Vec<BatchStatement> = Vec::new();
    let mut remaining: u32 = num_rows;
    proof {
        assert(chunks.deep_view().len() == 0);
        assert(chunks.deep_view().len() * rpcn == 0) by (nonlinear_arith)
            requires
                chunks.deep_view().len() == 0,
        ;
        assert(reader.cursor() == spec_decode_cursor(data@, 4, ((n - remaining) * c) as nat));
    }
    while remaining > 0
        invariant
            cols == spec_split_columns(columns_csv@),
            columns.deep_view() == cols,
            ncols == columns@.len(),
            c == ncols as nat,
            c == cols.len(),
            1 <= c,
            rpcn == rpc as nat,
            rpcn == spec_rows_per_chunk(c),
            1 <= rpc <= MAX_PLACEHOLDERS,
            n == num_rows as nat,
            1 <= n,
            data@.len() >= 4,
            num_rows == vstd::bytes::spec_u32_from_le_bytes(data@.subrange(0, 4)),
            0 <= remaining <= num_rows,
            remaining > 0 ==> n - remaining == chunks.deep_view().len() * rpcn,
            remaining == 0 ==> chunks.deep_view().len() == spec_ceil_div(n, rpcn),
            reader.wf(),
            reader.bytes() == data@,
            reader.cursor() == spec_decode_cursor(data@, 4, ((n - remaining) * c) as nat),
            forall|i: int|
                0 <= i < chunks.deep_view().len() ==> {
                    let stmt = #[trigger] chunks.deep_view()[i];
                    &&& stmt.sql == spec_chunk_sql(
                        table@,
                        columns_csv@,
                        cols,
                        spec_chunk_rows(n, rpcn, i as nat),
                        upsert,
                    )
                    &&& stmt.params == spec_decode_values(
                        data@,
                        spec_decode_cursor(data@, 4, (i * rpcn * c) as nat),
                        spec_chunk_rows(n, rpcn, i as nat) * c,
                    )
                },
        decreases remaining,
    {
        let ghost idx = chunks.deep_view().len() as int;
        let ghost done0 = ((n - remaining) * c) as nat;
        let ghost chunk_start = reader.cursor();
        let rpc32: u32 = rpc as u32;
        let rows_here: u32 = if remaining < rpc32 {
            remaining
        } else {
            rpc32
        };
        proof {
            assert(done0 == (idx * rpcn * c) as nat);
            assert(spec_chunk_rows(n, rpcn, idx as nat) == rows_here as nat);
        }
        let mut params: Vec<Value> = Vec::new();
        let mut row: u32 = 0;
        while row < rows_here
            invariant
                reader.wf(),
                reader.bytes() == data@,
                ncols == columns@.len(),
                c == ncols as nat,
                1 <= c,
                0 <= row <= rows_here,
                params.deep_view() == spec_decode_values(
                    data@,
                    chunk_start,
                    (row * c) as nat,
                ),
                reader.cursor() == spec_decode_cursor(data@, chunk_start, (row * c) as nat),
            decreases rows_here - row,
        {
            let mut col: usize = 0;
            while col < ncols
                invariant
                    reader.wf(),
                    reader.bytes() == data@,
                    ncols == columns@.len(),
                    c == ncols as nat,
                    0 <= col <= ncols,
                    params.deep_view() == spec_decode_values(
                        data@,
                        chunk_start,
                        (row * c + col) as nat,
                    ),
                    reader.cursor() == spec_decode_cursor(
                        data@,
                        chunk_start,
                        (row * c + col) as nat,
                    ),
                decreases ncols - col,
            {
                let v = parse_value(&mut reader);
                params.push(v);
                proof {
                    crate::value::lemma_decode_values_step(
                        data@,
                        chunk_start,
                        (row * c + col) as nat,
                    );
                    assert(params.deep_view() =~= spec_decode_values(
                        data@,
                        chunk_start,
                        (row * c + col + 1) as nat,
                    ));
                }
                col = col + 1;
            }
            proof {
                assert((row + 1) * c == row * c + c) by (nonlinear_arith);
            }
            row = row + 1;
        }
        let sql = build_chunk_sql(table, columns_csv, &columns, rows_here as usize, upsert);
        let ghost prev = chunks.deep_view();
        chunks.push(BatchStatement { sql, params });
        proof {
            crate::value::lemma_decode_values_split(
                data@,
                4,
                done0,
                (rows_here as nat) * c,
            );
            assert(chunks.deep_view() =~= prev.push(
                SpecBatchStatement {
                    sql: spec_chunk_sql(
                        table@,
                        columns_csv@,
                        cols,
                        spec_chunk_rows(n, rpcn, idx as nat),
                        upsert,
                    ),
                    params: spec_decode_values(
                        data@,
                        spec_decode_cursor(data@, 4, (idx * rpcn * c) as nat),
                        spec_chunk_rows(n, rpcn, idx as nat) * c,
                    ),
                },
            ));
        }
        remaining = remaining - rows_here;
        proof {
            assert((n - remaining) * c == done0 + (rows_here as nat) * c) by (nonlinear_arith)
                requires
                    done0 == ((n - (remaining + rows_here)) * c) as nat,
                    n >= remaining + rows_here,
                    c >= 1,
            ;
            if remaining > 0 {
                assert(n - remaining == (idx + 1) * rpcn) by (nonlinear_arith)
                    requires
                        n - (remaining + rows_here) == idx * rpcn,
                        rows_here == rpcn,
                ;
            } else {
                assert(spec_ceil_div(n, rpcn) == idx + 1) by (nonlinear_arith)
                    requires
                        n == idx * rpcn + rows_here,
                        1 <= rows_here <= rpcn,
                        0 <= idx,
                        1 <= rpcn,
                ;
            }
        }
    }
    Ok(chunks)
}

/// Each chunk's parameters are exactly its rows' window of the value
/// sequence the whole buffer decodes to: chunk `i` of a batch of `n` rows
/// starts after `i * rpc` rows' worth of values and carries one value per
/// cell of its own rows, in buffer order.
pub proof fn lemma_chunk_params_are_a_window(data: Seq<u8>, n: nat, rpc: nat, c: nat, i: nat)
    requires
        rpc >= 1,
        c >= 1,
        i * rpc < n,
    ensures
        spec_decode_values(
            data,
            spec_decode_cursor(data, 4, (i * rpc * c) as nat),
            spec_chunk_rows(n, rpc, i) * c,
        ) == spec_decode_values(data, 4, n * c).subrange(
            (i * rpc * c) as int,
            i * rpc * c + spec_chunk_rows(n, rpc, i) * c as int,
        ),
{
    let ki = spec_chunk_rows(n, rpc, i);
    assert(i * rpc * c + ki * c <= n * c) by (nonlinear_arith)
        requires
            i * rpc + ki <= n,
            c >= 1,
            0 <= i * rpc,
            0 <= ki,
    ;
    crate::value::lemma_decode_values_window(
        data,
        4,
        n * c,
        (i * rpc * c) as nat,
        (ki * c) as nat,
    );
}

/// The outcome the backend reported for one executed chunk; a chunk that
/// generated no insert id reports zero.
#[derive(Debug, Clone, Copy, PartialEq, Eq, Structural)]
pub struct ChunkOutcome {
    pub affected_rows: u64,
    pub last_insert_id: u64,
}

/// The sum of the affected-row counts of a run of outcomes.
pub open spec fn spec_total_affected(s: Seq<ChunkOutcome>) -> nat
    decreases s.len(),
{
    if s.len() == 0 {
        0
    } else {
        spec_total_affected(s.drop_last()) + s.last().affected_rows as nat
    }
}

/// The last nonzero insert id of a run of outcomes, in execution order;
/// zero when no chunk generated one.  A chunk without an id never
/// overrides one captured earlier.
pub open spec fn spec_last_nonzero_id(s: Seq<ChunkOutcome>) -> u64
    decreases s.len(),
{
    if s.len() == 0 {
        0
    } else if s.last().last_insert_id > 0 {
        s.last().last_insert_id
    } else {
        spec_last_nonzero_id(s.drop_last())
    }
}

/// Running totals across the chunks executed so far.
pub struct BatchAccumulator {
    pub total_affected: u64,
    pub last_insert_id: u64,
}

impl BatchAccumulator {
    pub fn new() -> (r: Self)
        ensures
            r.total_affected == 0,
            r.last_insert_id == 0,
    {
        BatchAccumulator { total_affected: 0, last_insert_id: 0 }
    }

    /// Folds one chunk's outcome in: affected rows add up (saturating at
    /// the 64-bit limit), and a nonzero insert id replaces the last one
    /// seen.
    pub fn absorb(&mut self, affected_rows: u64, last_insert_id: u64)
        ensures
            final(self).total_affected == if old(self).total_affected + affected_rows
                <= u64::MAX {
                (old(self).total_affected + affected_rows) as u64
            } else {
                u64::MAX
            },
            final(self).last_insert_id == if last_insert_id > 0 {
                last_insert_id
            } else {
                old(self).last_insert_id
            },
    {
        if affected_rows <= u64::MAX - self.total_affected {
            self.total_affected = self.total_affected + affected_rows;
        } else {
            self.total_affected = u64::MAX;
        }
        if last_insert_id > 0 {
            self.last_insert_id = last_insert_id;
        }
    }
}

/// Folds a whole run of chunk outcomes, in execution order: the total is
/// the sum of the reported affected rows (saturating only past the 64-bit
/// limit), and the insert id is the last nonzero one seen.
pub fn accumulate_outcomes(outcomes: &Vec<ChunkOutcome>) -> (r: BatchAccumulator)
    ensures
        spec_total_affected(outcomes@) <= u64::MAX ==> r.total_affected == spec_total_affected(
            outcomes@,
        ),
        spec_total_affected(outcomes@) > u64::MAX ==> r.total_affected == u64::MAX,
        r.last_insert_id == spec_last_nonzero_id(outcomes@),
{
    let mut acc = BatchAccumulator::new();
    let n = outcomes.len();
    let mut i: usize = 0;
    while i < n
        invariant
            n == outcomes@.len(),
            0 <= i <= n,
            spec_total_affected(outcomes@.subrange(0, i as int)) <= u64::MAX
                ==> acc.total_affected == spec_total_affected(outcomes@.subrange(0, i as int)),
            spec_total_affected(outcomes@.subrange(0, i as int)) > u64::MAX
                ==> acc.total_affected == u64::MAX,
            acc.last_insert_id == spec_last_nonzero_id(outcomes@.subrange(0, i as int)),
        decreases n - i,
    {
        let o = outcomes[i];
        acc.absorb(o.affected_rows, o.last_insert_id);
        proof {
            let pre = outcomes@.subrange(0, i as int);
            let now = outcomes@.subrange(0, i + 1);
            assert(now.drop_last() =~= pre);
            assert(now.last() == outcomes@[i as int]);
        }
        i = i + 1;
    }
    proof {
        assert(outcomes@.subrange(0, n as int) =~= outcomes@);
    }
    acc
}

} // verus!
