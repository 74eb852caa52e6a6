//! Result sets and their wire form.
//!
//! A serialized result is `u8 status(=Ok) || u64 affected_rows ||
//! u64 last_insert_id || u32 column_count || column_count * descriptor ||
//! u32 row_count || row_count * row`.  A descriptor is `blob name ||
//! u16 type_code || u16 charset_id`; a row cell is `u8 present(0|1)`
//! followed, when present, by a blob holding the cell's payload.  Integers
//! and floats travel as their fixed-width little-endian bytes wrapped in a
//! blob; temporal values are formatted as text.  A result set with no rows
//! still carries the full header, whatever the column count.

use crate::wire::{spec_blob_bytes, spec_i64_to_le_bytes, write_blob, write_u16, write_u32, write_u64, write_u8};
use vstd::bytes::{spec_u16_to_le_bytes, spec_u32_to_le_bytes, spec_u64_to_le_bytes};
use vstd::prelude::*;

verus! {

pub const CELL_ABSENT: u8 = 0;

pub const CELL_PRESENT: u8 = 1;

/// Metadata of one result column.
#[derive(Debug)]
pub struct ColumnDescriptor {
    pub name: Vec<u8>,
    pub type_code: u16,
    pub charset_id: u16,
}

/// Mathematical model of a `ColumnDescriptor`.
pub struct SpecColumn {
    pub name: Seq<u8>,
    pub type_code: u16,
    pub charset_id: u16,
}

impl View for ColumnDescriptor {
    type V = SpecColumn;

    open spec fn view(&self) -> SpecColumn {
        SpecColumn { name: self.name@, type_code: self.type_code, charset_id: self.charset_id }
    }
}

impl DeepView for ColumnDescriptor {
    type V = SpecColumn;

    open spec fn deep_view(&self) -> SpecColumn {
        self.view()
    }
}

impl SpecColumn {
    pub open spec fn spec_wf(self) -> bool {
        self.name.len() <= u32::MAX
    }
}

/// One cell of a result row.  A float travels as its 64 raw IEEE 754 bits; a
/// temporal value travels as its parts and is formatted as text on the wire,
/// the lossy mapping that keeps the format caller-agnostic.
#[derive(Debug)]
pub enum Cell {
    Null,
    Int(i64),
    UInt(u64),
    DoubleBits(u64),
    Bytes(Vec<u8>),
    Date { year: u16, month: u8, day: u8, hour: u8, minute: u8, second: u8, micro: u32 },
    Time { negative: bool, days: u32, hours: u8, minutes: u8, seconds: u8, micro: u32 },
}

/// Mathematical model of a `Cell`.
pub enum SpecCell {
    Null,
    Int(i64),
    UInt(u64),
    DoubleBits(u64),
    Bytes(Seq<u8>),
    Date { year: u16, month: u8, day: u8, hour: u8, minute: u8, second: u8, micro: u32 },
    Time { negative: bool, days: u32, hours: u8, minutes: u8, seconds: u8, micro: u32 },
}

impl View for Cell {
    type V = SpecCell;

    open spec fn view(&self) -> SpecCell {
        match self {
            Cell::Null => SpecCell::Null,
            Cell::Int(v) => SpecCell::Int(*v),
            Cell::UInt(v) => SpecCell::UInt(*v),
            Cell::DoubleBits(v) => SpecCell::DoubleBits(*v),
            Cell::Bytes(b) => SpecCell::Bytes(b@),
            Cell::Date { year, month, day, hour, minute, second, micro } => SpecCell::Date {
                year: *year,
                month: *month,
                day: *day,
                hour: *hour,
                minute: *minute,
                second: *second,
                micro: *micro,
            },
            Cell::Time { negative, days, hours, minutes, seconds, micro } => SpecCell::Time {
                negative: *negative,
                days: *days,
                hours: *hours,
                minutes: *minutes,
                seconds: *seconds,
                micro: *micro,
            },
        }
    }
}

impl DeepView for Cell {
    type V = SpecCell;

    open spec fn deep_view(&self) -> SpecCell {
        self.view()
    }
}

impl SpecCell {
    pub open spec fn spec_wf(self) -> bool {
        match self {
            SpecCell::Bytes(b) => b.len() <= u32::MAX,
            _ => true,
        }
    }
}

/// The decimal digits of `v`, most significant first, no leading zeros.
pub open spec fn spec_dec_digits(v: nat) -> Seq<u8>
    decreases v,
{
    if v < 10 {
        seq![(v + 48) as u8]
    } else {
        spec_dec_digits(v / 10).push((v % 10 + 48) as u8)
    }
}

/// The decimal digits of `v`, left-padded with zeros to at least `width`
/// characters, as Rust's zero-padding format does.
pub open spec fn spec_padded_dec(v: nat, width: nat) -> Seq<u8> {
    let digits = spec_dec_digits(v);
    if digits.len() < width {
        Seq::new((width - digits.len()) as nat, |i: int| 48u8) + digits
    } else {
        digits
    }
}

pub open spec fn pow10(k: nat) -> nat
    decreases k,
{
    if k == 0 {
        1
    } else {
        10 * pow10((k - 1) as nat)
    }
}

proof fn lemma_dec_digits_len_le(v: nat, k: nat)
    requires
        k >= 1,
        v < pow10(k),
    ensures
        spec_dec_digits(v).len() <= k,
    decreases k,
{
    if v < 10 {
    } else {
        assert(pow10(k) == 10 * pow10((k - 1) as nat));
        if k == 1 {
            assert(pow10(1nat) == 10) by {
                assert(pow10(0nat) == 1);
            }
            assert(false);
        }
        assert(v / 10 < pow10((k - 1) as nat)) by (nonlinear_arith)
            requires
                v < 10 * pow10((k - 1) as nat),
        ;
        lemma_dec_digits_len_le(v / 10, (k - 1) as nat);
    }
}

/// No value of 64 bits or fewer needs more than twenty decimal digits.
proof fn lemma_u64_dec_digits_len(v: nat)
    requires
        v <= u64::MAX,
    ensures
        1 <= spec_dec_digits(v).len() <= 20,
{
    reveal_with_fuel(pow10, 21);
    assert(pow10(20) == 100000000000000000000);
    lemma_dec_digits_len_le(v, 20);
}

/// Appends the decimal digits of `v`, most significant first.
fn push_dec(buf: &mut Vec<u8>, v: u64)
    ensures
        final(buf)@ == old(buf)@ + spec_dec_digits(v as nat),
    decreases v,
{
    if v >= 10 {
        push_dec(buf, v / 10);
    }
    buf.push((v % 10) as u8 + 48);
    assert(buf@ =~= old(buf)@ + spec_dec_digits(v as nat));
}

/// Appends `v` in decimal, zero-padded on the left to at least `width`
/// characters.
fn push_padded_dec(buf: &mut Vec<u8>, v: u64, width: usize)
    ensures
        final(buf)@ == old(buf)@ + spec_padded_dec(v as nat, width as nat),
{
    let mut digits: Vec<u8> = Vec::new();
    push_dec(&mut digits, v);
    let n = digits.len();
    let mut k = n;
    while k < width
        invariant
            n == spec_dec_digits(v as nat).len(),
            n <= k <= if n < width {
                width as int
            } else {
                n as int
            },
            buf@ == old(buf)@ + Seq::new((k - n) as nat, |i: int| 48u8),
        decreases width - k,
    {
        buf.push(48);
        assert(buf@ =~= old(buf)@ + Seq::new((k + 1 - n) as nat, |i: int| 48u8));
        k = k + 1;
    }
    buf.extend_from_slice(digits.as_slice());
    assert(buf@ =~= old(buf)@ + spec_padded_dec(v as nat, width as nat));
}

/// The textual form of a date-time cell:
/// `YYYY-MM-DD HH:MM:SS.ffffff`, each field zero-padded.
pub open spec fn spec_date_text(
    year: u16,
    month: u8,
    day: u8,
    hour: u8,
    minute: u8,
    second: u8,
    micro: u32,
) -> Seq<u8> {
    spec_padded_dec(year as nat, 4) + seq![45u8] + spec_padded_dec(month as nat, 2) + seq![45u8]
        + spec_padded_dec(day as nat, 2) + seq![32u8] + spec_padded_dec(hour as nat, 2)
        + seq![58u8] + spec_padded_dec(minute as nat, 2) + seq![58u8] + spec_padded_dec(
        second as nat,
        2,
    ) + seq![46u8] + spec_padded_dec(micro as nat, 6)
}

/// The textual form of a duration cell: `[-]HH:MM:SS.ffffff`, with the day
/// count folded into the hour field.
pub open spec fn spec_time_text(
    negative: bool,
    days: u32,
    hours: u8,
    minutes: u8,
    seconds: u8,
    micro: u32,
) -> Seq<u8> {
    (if negative {
        seq![45u8]
    } else {
        Seq::<u8>::empty()
    }) + spec_padded_dec((days as nat) * 24 + (hours as nat), 2) + seq![58u8] + spec_padded_dec(minutes as nat, 2)
        + seq![58u8] + spec_padded_dec(seconds as nat, 2) + seq![46u8] + spec_padded_dec(
        micro as nat,
        6,
    )
}

/// The blob payload a present cell carries.
pub open spec fn spec_cell_payload(c: SpecCell) -> Seq<u8>
    recommends
        c.spec_wf(),
        !(c is Null),
{
    match c {
        SpecCell::Null => Seq::empty(),
        SpecCell::Int(v) => spec_i64_to_le_bytes(v),
        SpecCell::UInt(v) => spec_u64_to_le_bytes(v),
        SpecCell::DoubleBits(v) => spec_u64_to_le_bytes(v),
        SpecCell::Bytes(b) => b,
        SpecCell::Date { year, month, day, hour, minute, second, micro } => spec_date_text(
            year,
            month,
            day,
            hour,
            minute,
            second,
            micro,
        ),
        SpecCell::Time { negative, days, hours, minutes, seconds, micro } => spec_time_text(
            negative,
            days,
            hours,
            minutes,
            seconds,
            micro,
        ),
    }
}

/// The wire bytes of one cell: a present flag, then the payload as a blob.
pub open spec fn spec_cell_bytes(c: SpecCell) -> Seq<u8>
    recommends
        c.spec_wf(),
{
    if c is Null {
        seq![CELL_ABSENT]
    } else {
        seq![CELL_PRESENT] + spec_blob_bytes(spec_cell_payload(c))
    }
}

/// A padded field is as long as the width or the digit count, whichever is
/// larger.
proof fn lemma_padded_dec_len(v: nat, width: nat)
    requires
        v <= u64::MAX,
    ensures
        spec_padded_dec(v, width).len() == if spec_dec_digits(v).len() < width {
            width
        } else {
            spec_dec_digits(v).len()
        },
        spec_padded_dec(v, width).len() <= width + 20,
{
    lemma_u64_dec_digits_len(v);
}

/// Every cell payload fits a blob's `u32` length prefix.
proof fn lemma_cell_payload_len(c: SpecCell)
    requires
        c.spec_wf(),
    ensures
        spec_cell_payload(c).len() <= u32::MAX,
{
    vstd::bytes::lemma_auto_spec_u64_to_from_le_bytes();
    match c {
        SpecCell::Date { year, month, day, hour, minute, second, micro } => {
            lemma_padded_dec_len(year as nat, 4);
            lemma_padded_dec_len(month as nat, 2);
            lemma_padded_dec_len(day as nat, 2);
            lemma_padded_dec_len(hour as nat, 2);
            lemma_padded_dec_len(minute as nat, 2);
            lemma_padded_dec_len(second as nat, 2);
            lemma_padded_dec_len(micro as nat, 6);
        },
        SpecCell::Time { negative, days, hours, minutes, seconds, micro } => {
            assert((days as nat) * 24 + (hours as nat) <= 0xffffffffnat * 24 + 255) by (nonlinear_arith)
                requires
                    days <= 0xffffffffu32,
                    hours <= 255u8,
            ;
            lemma_padded_dec_len((days as nat) * 24 + (hours as nat), 2);
            lemma_padded_dec_len(minutes as nat, 2);
            lemma_padded_dec_len(seconds as nat, 2);
            lemma_padded_dec_len(micro as nat, 6);
        },
        _ => {},
    }
}

/// Appends the wire form of one cell, padding with a textual rendering for
/// temporal values.
pub fn write_cell(buf: &mut Vec<u8>, c: &Cell)
    requires
        c@.spec_wf(),
    ensures
        final(buf)@ == old(buf)@ + spec_cell_bytes(c@),
{
    proof {
        lemma_cell_payload_len(c@);
    }
    match c {
        Cell::Null => {
            write_u8(buf, CELL_ABSENT);
            assert(buf@ =~= old(buf)@ + spec_cell_bytes(c@));
        },
        Cell::Int(v) => {
            write_u8(buf, CELL_PRESENT);
            let mut payload: Vec<u8> = Vec::new();
            crate::wire::write_i64(&mut payload, *v);
            write_blob(buf, payload.as_slice());
            assert(buf@ =~= old(buf)@ + spec_cell_bytes(c@));
        },
        Cell::UInt(v) => {
            write_u8(buf, CELL_PRESENT);
            let mut payload: Vec<u8> = Vec::new();
            write_u64(&mut payload, *v);
            write_blob(buf, payload.as_slice());
            assert(buf@ =~= old(buf)@ + spec_cell_bytes(c@));
        },
        Cell::DoubleBits(v) => {
            write_u8(buf, CELL_PRESENT);
            let mut payload: Vec<u8> = Vec::new();
            write_u64(&mut payload, *v);
            write_blob(buf, payload.as_slice());
            assert(buf@ =~= old(buf)@ + spec_cell_bytes(c@));
        },
        Cell::Bytes(b) => {
            write_u8(buf, CELL_PRESENT);
            write_blob(buf, b.as_slice());
            assert(buf@ =~= old(buf)@ + spec_cell_bytes(c@));
        },
        Cell::Date { year, month, day, hour, minute, second, micro } => {
            write_u8(buf, CELL_PRESENT);
            let mut payload: Vec<u8> = Vec::new();
            push_padded_dec(&mut payload, *year as u64, 4);
            payload.push(45);
            push_padded_dec(&mut payload, *month as u64, 2);
            payload.push(45);
            push_padded_dec(&mut payload, *day as u64, 2);
            payload.push(32);
            push_padded_dec(&mut payload, *hour as u64, 2);
            payload.push(58);
            push_padded_dec(&mut payload, *minute as u64, 2);
            payload.push(58);
            push_padded_dec(&mut payload, *second as u64, 2);
            payload.push(46);
            push_padded_dec(&mut payload, *micro as u64, 6);
            assert(payload@ =~= spec_cell_payload(c@));
            write_blob(buf, payload.as_slice());
            assert(buf@ =~= old(buf)@ + spec_cell_bytes(c@));
        },
        Cell::Time { negative, days, hours, minutes, seconds, micro } => {
            write_u8(buf, CELL_PRESENT);
            let mut payload: Vec<u8> = Vec::new();
            if *negative {
                payload.push(45);
            }
            let total_hours: u64 = (*days as u64) * 24 + (*hours as u64);
            assert(total_hours as nat == (*days as nat) * 24 + (*hours as nat));

            push_padded_dec(&mut payload, total_hours, 2);
            payload.push(58);
            push_padded_dec(&mut payload, *minutes as u64, 2);
            payload.push(58);
            push_padded_dec(&mut payload, *seconds as u64, 2);
            payload.push(46);
            push_padded_dec(&mut payload, *micro as u64, 6);
            assert(payload@ =~= spec_cell_payload(c@));
            write_blob(buf, payload.as_slice());
            assert(buf@ =~= old(buf)@ + spec_cell_bytes(c@));
        },
    }
}

/// The wire bytes of one column descriptor.
pub open spec fn spec_column_bytes(c: SpecColumn) -> Seq<u8>
    recommends
        c.spec_wf(),
{
    spec_blob_bytes(c.name) + spec_u16_to_le_bytes(c.type_code) + spec_u16_to_le_bytes(
        c.charset_id,
    )
}

/// The wire bytes of a run of column descriptors.
pub open spec fn spec_columns_bytes(cols: Seq<SpecColumn>) -> Seq<u8>
    decreases cols.len(),
{
    if cols.len() == 0 {
        Seq::empty()
    } else {
        spec_columns_bytes(cols.drop_last()) + spec_column_bytes(cols.last())
    }
}

/// The cell serialized at column `i` of a row: the row's own cell, or Null
/// when the row is shorter than the column list.
pub open spec fn spec_row_cell(row: Seq<SpecCell>, i: int) -> SpecCell {
    if 0 <= i < row.len() {
        row[i]
    } else {
        SpecCell::Null
    }
}

/// The wire bytes of one row, one cell per column.
pub open spec fn spec_row_bytes(row: Seq<SpecCell>, ncols: nat) -> Seq<u8>
    decreases ncols,
{
    if ncols == 0 {
        Seq::empty()
    } else {
        spec_row_bytes(row, (ncols - 1) as nat) + spec_cell_bytes(
            spec_row_cell(row, ncols - 1),
        )
    }
}

/// The wire bytes of a run of rows.
pub open spec fn spec_rows_bytes(rows: Seq<Seq<SpecCell>>, ncols: nat) -> Seq<u8>
    decreases rows.len(),
{
    if rows.len() == 0 {
        Seq::empty()
    } else {
        spec_rows_bytes(rows.drop_last(), ncols) + spec_row_bytes(rows.last(), ncols)
    }
}

/// The full wire form of a successful result: status, the two execution
/// counters, the column descriptors and the rows.  Zero rows still produce
/// the whole header with the columns that were supplied.
pub open spec fn spec_result_bytes(
    cols: Seq<SpecColumn>,
    rows: Seq<Seq<SpecCell>>,
    affected_rows: u64,
    last_insert_id: u64,
) -> Seq<u8> {
    seq![crate::envelope::STATUS_OK] + spec_u64_to_le_bytes(affected_rows) + spec_u64_to_le_bytes(
        last_insert_id,
    ) + spec_u32_to_le_bytes(cols.len() as u32) + spec_columns_bytes(cols) + spec_u32_to_le_bytes(
        rows.len() as u32,
    ) + spec_rows_bytes(rows, cols.len())
}

/// Serializes a result set.  The header always carries the real column and
/// row counts: a zero-row result keeps its column metadata and is never a
/// degenerate buffer.
pub fn serialize_result(
    columns: &Vec<ColumnDescriptor>,
    rows: &Vec<Vec<Cell>>,
    affected_rows: u64,
    last_insert_id: u64,
) -> (r: Vec<u8>)
    requires
        columns@.len() <= u32::MAX,
        rows@.len() <= u32::MAX,
        forall|i: int| 0 <= i < columns@.len() ==> (#[trigger] columns@[i])@.spec_wf(),
        forall|i: int, j: int|
            0 <= i < rows@.len() && 0 <= j < rows@[i]@.len() ==> (#[trigger] rows@[i]@[j])@.spec_wf(),
    ensures
        r@ == spec_result_bytes(
            columns.deep_view(),
            rows.deep_view(),
            affected_rows,
            last_insert_id,
        ),
{
    let ghost cv = columns.deep_view();
    let ghost rv = rows.deep_view();
    proof {
        assert(cv.len() == columns@.len());
        assert(rv.len() == rows@.len());
    }
    let mut buf: Vec<u8> = Vec::new();
    write_u8(&mut buf, crate::envelope::STATUS_OK);
    write_u64(&mut buf, affected_rows);
    write_u64(&mut buf, last_insert_id);
    write_u32(&mut buf, columns.len() as u32);
    let ghost header = buf@;
    let ncols = columns.len();
    let mut i: usize = 0;
    while i < ncols
        invariant
            ncols == columns@.len() == cv.len(),
            cv == columns.deep_view(),
            forall|k: int| 0 <= k < ncols ==> (#[trigger] columns@[k])@.spec_wf(),
            0 <= i <= ncols,
            buf@ == header + spec_columns_bytes(cv.subrange(0, i as int)),
        decreases ncols - i,
    {
        proof {
            assert(cv[i as int] == columns@[i as int]@);
        }
        let col = &columns[i];
        write_blob(&mut buf, col.name.as_slice());
        write_u16(&mut buf, col.type_code);
        write_u16(&mut buf, col.charset_id);
        proof {
            let pre = cv.subrange(0, i as int);
            let now = cv.subrange(0, i + 1);
            assert(now.drop_last() =~= pre);
            assert(now.last() == cv[i as int]);
            assert(buf@ =~= header + spec_columns_bytes(now));
        }
        i = i + 1;
    }
    proof {
        assert(cv.subrange(0, ncols as int) =~= cv);
    }
    write_u32(&mut buf, rows.len() as u32);
    let ghost mid = buf@;
    let nrows = rows.len();
    let null_cell = Cell::Null;
    let mut r_i: usize = 0;
    while r_i < nrows
        invariant
            nrows == rows@.len() == rv.len(),
            rv == rows.deep_view(),
            ncols == cv.len(),
            forall|i: int, j: int|
                0 <= i < nrows && 0 <= j < rows@[i]@.len() ==> (
                #[trigger] rows@[i]@[j])@.spec_wf(),
            null_cell@ == SpecCell::Null,
            0 <= r_i <= nrows,
            buf@ == mid + spec_rows_bytes(rv.subrange(0, r_i as int), ncols as nat),
        decreases nrows - r_i,
    {
        let row = &rows[r_i];
        let ghost rowv = rv[r_i as int];
        proof {
            assert(rowv == rows@[r_i as int].deep_view());
            assert(rowv.len() == row@.len());
        }
        let ghost row_base = buf@;
        let mut j: usize = 0;
        while j < ncols
            invariant
                ncols == cv.len(),
                nrows == rows@.len() == rv.len(),
                rv == rows.deep_view(),
                0 <= r_i < nrows,
                row == rows@[r_i as int],
                rowv == rv[r_i as int],
                rowv.len() == row@.len(),
                forall|i: int, jj: int|
                    0 <= i < nrows && 0 <= jj < rows@[i]@.len() ==> (
                    #[trigger] rows@[i]@[jj])@.spec_wf(),
                null_cell@ == SpecCell::Null,
                0 <= j <= ncols,
                buf@ == row_base + spec_row_bytes(rowv, j as nat),
            decreases ncols - j,
        {
            let cell = if j < row.len() {
                &row[j]
            } else {
                &null_cell
            };
            proof {
                assert(cell@ == spec_row_cell(rowv, j as int));
                if j < row@.len() {
                    assert(rowv[j as int] == rows@[r_i as int]@[j as int]@);
                }
            }
            write_cell(&mut buf, cell);
            j = j + 1;
        }
        proof {
            let pre = rv.subrange(0, r_i as int);
            let now = rv.subrange(0, r_i + 1);
            assert(now.drop_last() =~= pre);
            assert(now.last() == rowv);
            assert(buf@ =~= mid + spec_rows_bytes(now, ncols as nat));
        }
        r_i = r_i + 1;
    }
    proof {
        assert(rv.subrange(0, nrows as int) =~= rv);
        assert(buf@ =~= spec_result_bytes(cv, rv, affected_rows, last_insert_id));
    }
    buf
}

} // verus!
