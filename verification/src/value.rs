//! Parameter values and their wire form.
//!
//! A parameter list buffer is `u32 count || count * value`; each value is
//! `u8 tag || payload` with tags 0=Null (no payload), 1=Integer (`i64`),
//! 2=Float (8 bytes, the IEEE 754 bit pattern), 3=String (blob) and
//! 4=Blob (blob).  Tags 3 and 4 decode identically.  An unrecognized tag or a
//! short read decodes as Null, never as an error: the decoder is deliberately
//! defensive about data fields.

use crate::wire::{
    spec_blob_bytes, spec_i64_to_le_bytes, write_blob, write_i64, write_u32, write_u64, write_u8,
    BinaryReader,
};
use vstd::bytes::{
    spec_u32_from_le_bytes, spec_u32_to_le_bytes, spec_u64_from_le_bytes, spec_u64_to_le_bytes,
};
use vstd::prelude::*;

verus! {

pub const TAG_NULL: u8 = 0;

pub const TAG_INT: u8 = 1;

pub const TAG_FLOAT: u8 = 2;

pub const TAG_STRING: u8 = 3;

pub const TAG_BLOB: u8 = 4;

/// A parameter value bound to a statement placeholder.  A float travels as
/// the 64 raw bits of its IEEE 754 representation, so the codec never touches
/// floating-point arithmetic; text and binary payloads are both `Bytes`.
#[derive(Debug)]
pub enum Value {
    Null,
    Int(i64),
    Double(u64),
    Bytes(Vec<u8>),
}

/// Mathematical model of a `Value`.
pub enum SpecValue {
    Null,
    Int(i64),
    Double(u64),
    Bytes(Seq<u8>),
}

impl View for Value {
    type V = SpecValue;

    open spec fn view(&self) -> SpecValue {
        match self {
            Value::Null => SpecValue::Null,
            Value::Int(i) => SpecValue::Int(*i),
            Value::Double(bits) => SpecValue::Double(*bits),
            Value::Bytes(b) => SpecValue::Bytes(b@),
        }
    }
}

impl DeepView for Value {
    type V = SpecValue;

    open spec fn deep_view(&self) -> SpecValue {
        self.view()
    }
}

impl Value {
    /// A value fits on the wire when a blob payload's length fits in the
    /// `u32` length prefix.
    pub open spec fn spec_wf(self) -> bool {
        self@.spec_wf()
    }
}

impl SpecValue {
    pub open spec fn spec_wf(self) -> bool {
        match self {
            SpecValue::Bytes(b) => b.len() <= u32::MAX,
            _ => true,
        }
    }
}

/// Compares two byte vectors element by element.
pub fn eq_bytes(a: &Vec<u8>, b: &Vec<u8>) -> (r: bool)
    ensures
        r <==> a@ == b@,
{
    if a.len() != b.len() {
        return false;
    }
    let n = a.len();
    let mut i: usize = 0;
    while i < n
        invariant
            n == a@.len() == b@.len(),
            0 <= i <= n,
            forall|j: int| 0 <= j < i ==> a@[j] == b@[j],
        decreases n - i,
    {
        if a[i] != b[i] {
            return false;
        }
        i = i + 1;
    }
    proof {
        assert(a@ =~= b@);
    }
    true
}

impl PartialEq for Value {
    fn eq(&self, other: &Self) -> (r: bool) {
        match (self, other) {
            (Value::Null, Value::Null) => true,
            (Value::Int(a), Value::Int(b)) => a == b,
            (Value::Double(a), Value::Double(b)) => a == b,
            (Value::Bytes(a), Value::Bytes(b)) => eq_bytes(a, b),
            _ => false,
        }
    }
}

impl Eq for Value {

}

impl vstd::std_specs::cmp::PartialEqSpecImpl for Value {
    open spec fn obeys_eq_spec() -> bool {
        true
    }

    open spec fn eq_spec(&self, other: &Value) -> bool {
        self@ == other@
    }
}

/// The wire bytes of one encoded value.
pub open spec fn spec_value_bytes(v: SpecValue) -> Seq<u8>
    recommends
        v.spec_wf(),
{
    match v {
        SpecValue::Null => seq![TAG_NULL],
        SpecValue::Int(i) => seq![TAG_INT] + spec_i64_to_le_bytes(i),
        SpecValue::Double(bits) => seq![TAG_FLOAT] + spec_u64_to_le_bytes(bits),
        SpecValue::Bytes(b) => seq![TAG_BLOB] + spec_blob_bytes(b),
    }
}

/// The wire bytes of an encoded parameter list: a `u32` count followed by the
/// values back to back.
pub open spec fn spec_params_bytes(vs: Seq<SpecValue>) -> Seq<u8>
    recommends
        vs.len() <= u32::MAX,
        forall|i: int| 0 <= i < vs.len() ==> vs[i].spec_wf(),
{
    spec_u32_to_le_bytes(vs.len() as u32) + spec_values_bytes(vs)
}

pub open spec fn spec_values_bytes(vs: Seq<SpecValue>) -> Seq<u8>
    decreases vs.len(),
{
    if vs.len() == 0 {
        Seq::empty()
    } else {
        spec_value_bytes(vs[0]) + spec_values_bytes(vs.drop_first())
    }
}

/// One defensive decoding step: the value read at `pos` and the cursor after
/// it.  A missing or unknown tag and a short payload both yield Null; a blob
/// whose length prefix was read but whose body is short leaves the cursor
/// after the prefix, exactly as the reader does.
pub open spec fn spec_decode_value(data: Seq<u8>, pos: int) -> (SpecValue, int)
    recommends
        0 <= pos <= data.len(),
{
    if pos + 1 <= data.len() {
        let tag = data[pos];
        let p = pos + 1;
        if tag == TAG_NULL {
            (SpecValue::Null, p)
        } else if tag == TAG_INT {
            if p + 8 <= data.len() {
                (SpecValue::Int(spec_u64_from_le_bytes(data.subrange(p, p + 8)) as i64), p + 8)
            } else {
                (SpecValue::Null, p)
            }
        } else if tag == TAG_FLOAT {
            if p + 8 <= data.len() {
                (SpecValue::Double(spec_u64_from_le_bytes(data.subrange(p, p + 8))), p + 8)
            } else {
                (SpecValue::Null, p)
            }
        } else if tag == TAG_STRING || tag == TAG_BLOB {
            if p + 4 <= data.len() {
                let n = spec_u32_from_le_bytes(data.subrange(p, p + 4)) as int;
                let q = p + 4;
                if q + n <= data.len() {
                    (SpecValue::Bytes(data.subrange(q, q + n)), q + n)
                } else {
                    (SpecValue::Null, q)
                }
            } else {
                (SpecValue::Null, p)
            }
        } else {
            (SpecValue::Null, p)
        }
    } else {
        (SpecValue::Null, pos)
    }
}

/// The sequence of `count` values decoded one after another from `pos`.
pub open spec fn spec_decode_values(data: Seq<u8>, pos: int, count: nat) -> Seq<SpecValue>
    decreases count,
{
    if count == 0 {
        Seq::empty()
    } else {
        let (v, p) = spec_decode_value(data, pos);
        seq![v] + spec_decode_values(data, p, (count - 1) as nat)
    }
}

/// The cursor after decoding `count` values from `pos`.
pub open spec fn spec_decode_cursor(data: Seq<u8>, pos: int, count: nat) -> int
    decreases count,
{
    if count == 0 {
        pos
    } else {
        spec_decode_cursor(data, spec_decode_value(data, pos).1, (count - 1) as nat)
    }
}

/// The parameter list a whole buffer decodes to: the leading `u32` gives the
/// count, and a buffer too short even for the count decodes to the empty
/// list.
pub open spec fn spec_decode_params(data: Seq<u8>) -> Seq<SpecValue> {
    if data.len() >= 4 {
        spec_decode_values(data, 4, spec_u32_from_le_bytes(data.subrange(0, 4)) as nat)
    } else {
        Seq::empty()
    }
}

/// Appends the wire form of `v` to `buf`.
pub fn encode_value(buf: &mut Vec<u8>, v: &Value)
    requires
        v.spec_wf(),
    ensures
        final(buf)@ == old(buf)@ + spec_value_bytes(v@),
{
    match v {
        Value::Null => {
            write_u8(buf, TAG_NULL);
            assert(buf@ =~= old(buf)@ + spec_value_bytes(v@));
        },
        Value::Int(i) => {
            write_u8(buf, TAG_INT);
            write_i64(buf, *i);
            assert(buf@ =~= old(buf)@ + spec_value_bytes(v@));
        },
        Value::Double(bits) => {
            write_u8(buf, TAG_FLOAT);
            write_u64(buf, *bits);
            assert(buf@ =~= old(buf)@ + spec_value_bytes(v@));
        },
        Value::Bytes(b) => {
            write_u8(buf, TAG_BLOB);
            write_blob(buf, b.as_slice());
            assert(buf@ =~= old(buf)@ + spec_value_bytes(v@));
        },
    }
}

/// Encodes a parameter list into a fresh buffer: `u32 count || count * value`.
pub fn encode_params_list(params: &Vec<Value>) -> (r: Vec<u8>)
    requires
        params@.len() <= u32::MAX,
        forall|i: int| 0 <= i < params@.len() ==> params@[i].spec_wf(),
    ensures
        r@ == spec_params_bytes(params.deep_view()),
{
    let ghost vs = params.deep_view();
    let mut buf: Vec<u8> = Vec::new();
    write_u32(&mut buf, params.len() as u32);
    assert(vs.len() == params@.len());
    let n = params.len();
    let mut i: usize = 0;
    while i < n
        invariant
            n == params@.len() == vs.len(),
            vs == params.deep_view(),
            forall|j: int| 0 <= j < n ==> params@[j].spec_wf(),
            0 <= i <= n,
            buf@ == spec_u32_to_le_bytes(vs.len() as u32) + spec_values_bytes(
                vs.subrange(0, i as int),
            ),
        decreases n - i,
    {
        proof {
            assert(params@[i as int].spec_wf());
            assert(params.deep_view()[i as int] == params@[i as int]@);
        }
        encode_value(&mut buf, &params[i]);
        proof {
            lemma_values_bytes_snoc(vs, i as int);
        }
        i = i + 1;
    }
    proof {
        assert(vs.subrange(0, n as int) =~= vs);
    }
    buf
}

/// Appending one more value to a prefix extends its concatenated encoding by
/// that value's bytes.
proof fn lemma_values_bytes_snoc(vs: Seq<SpecValue>, i: int)
    requires
        0 <= i < vs.len(),
    ensures
        spec_values_bytes(vs.subrange(0, i + 1)) == spec_values_bytes(vs.subrange(0, i))
            + spec_value_bytes(vs[i]),
    decreases i,
{
    if i == 0 {
        assert(vs.subrange(0, 1) =~= seq![vs[0]]);
        assert(seq![vs[0]].drop_first() =~= Seq::<SpecValue>::empty());
        assert(spec_values_bytes(seq![vs[0]]) == spec_value_bytes(vs[0]) + spec_values_bytes(
            seq![vs[0]].drop_first(),
        ));
        assert(spec_values_bytes(Seq::<SpecValue>::empty()) == Seq::<u8>::empty());
        assert(spec_value_bytes(vs[0]) + Seq::<u8>::empty() =~= spec_value_bytes(vs[0]));
        assert(spec_values_bytes(vs.subrange(0, 0)) =~= Seq::<u8>::empty());
        assert(spec_values_bytes(vs.subrange(0, 1)) =~= spec_value_bytes(vs[0]));
        assert(spec_values_bytes(vs.subrange(0, 0)) + spec_value_bytes(vs[0]) =~= spec_value_bytes(
            vs[0],
        ));
    } else {
        let tail = vs.drop_first();
        lemma_values_bytes_snoc(tail, i - 1);
        assert(vs.subrange(0, i + 1).drop_first() =~= tail.subrange(0, i));
        assert(vs.subrange(0, i).drop_first() =~= tail.subrange(0, i - 1));
        assert(vs.subrange(0, i + 1)[0] == vs[0]);
        assert(vs.subrange(0, i)[0] == vs[0]);
        assert(tail[i - 1] == vs[i]);
        assert(spec_values_bytes(vs.subrange(0, i + 1)) == spec_value_bytes(vs[0])
            + spec_values_bytes(tail.subrange(0, i)));
        assert(spec_values_bytes(vs.subrange(0, i)) == spec_value_bytes(vs[0])
            + spec_values_bytes(tail.subrange(0, i - 1)));
        assert(spec_value_bytes(vs[0]) + (spec_values_bytes(tail.subrange(0, i - 1))
            + spec_value_bytes(vs[i])) =~= (spec_value_bytes(vs[0]) + spec_values_bytes(
            tail.subrange(0, i - 1),
        )) + spec_value_bytes(vs[i]));
    }
}

/// Reads one value, advancing the reader exactly as the defensive decoding
/// step describes.
pub fn parse_value(reader: &mut BinaryReader) -> (r: Value)
    requires
        old(reader).wf(),
    ensures
        final(reader).wf(),
        final(reader).bytes() == old(reader).bytes(),
        r@ == spec_decode_value(old(reader).bytes(), old(reader).cursor()).0,
        final(reader).cursor() == spec_decode_value(old(reader).bytes(), old(reader).cursor()).1,
{
    match reader.read_u8() {
        Some(tag) => {
            if tag == TAG_NULL {
                Value::Null
            } else if tag == TAG_INT {
                match reader.read_i64() {
                    Some(v) => Value::Int(v),
                    None => Value::Null,
                }
            } else if tag == TAG_FLOAT {
                match reader.read_u64() {
                    Some(bits) => Value::Double(bits),
                    None => Value::Null,
                }
            } else if tag == TAG_STRING || tag == TAG_BLOB {
                match reader.read_blob() {
                    Some(b) => Value::Bytes(b),
                    None => Value::Null,
                }
            } else {
                Value::Null
            }
        },
        None => Value::Null,
    }
}

/// Decodes a whole parameter list buffer: reads the `u32` count, then that
/// many values, padding short data with Null.
pub fn parse_params_list(data: &[u8]) -> (r: Vec<Value>)
    ensures
        r.deep_view() == spec_decode_params(data@),
{
    let mut reader = BinaryReader::new(data);
    let count = match reader.read_u32() {
        Some(c) => c,
        None => 0,
    };
    let mut out: Vec<Value> = Vec::new();
    if data.len() < 4 {
        assert(out.deep_view() =~= spec_decode_params(data@));
        return out;
    }
    let mut i: u32 = 0;
    while i < count
        invariant
            reader.wf(),
            reader.bytes() == data@,
            data@.len() >= 4,
            count == spec_u32_from_le_bytes(data@.subrange(0, 4)),
            0 <= i <= count,
            out.deep_view() == spec_decode_values(data@, 4, i as nat),
            reader.cursor() == spec_decode_cursor(data@, 4, i as nat),
        decreases count - i,
    {
        let ghost pos = reader.cursor();
        let v = parse_value(&mut reader);
        out.push(v);
        proof {
            lemma_decode_values_step(data@, 4, i as nat);
            assert(out.deep_view() =~= spec_decode_values(data@, 4, (i + 1) as nat));
        }
        i = i + 1;
    }
    assert(out.deep_view() =~= spec_decode_params(data@));
    out
}

/// A well-formed value whose encoding sits at `pos` of a larger buffer
/// decodes back to itself, leaving the cursor right after the encoding.
proof fn lemma_decode_value_at(data: Seq<u8>, pos: int, v: SpecValue)
    requires
        v.spec_wf(),
        0 <= pos,
        pos + spec_value_bytes(v).len() <= data.len(),
        data.subrange(pos, pos + spec_value_bytes(v).len()) == spec_value_bytes(v),
    ensures
        spec_decode_value(data, pos) == (v, pos + spec_value_bytes(v).len()),
{
    vstd::bytes::lemma_auto_spec_u32_to_from_le_bytes();
    vstd::bytes::lemma_auto_spec_u64_to_from_le_bytes();
    let bytes = spec_value_bytes(v);
    let len = bytes.len() as int;
    assert(data[pos] == data.subrange(pos, pos + len)[0]);
    match v {
        SpecValue::Null => {
            assert(bytes[0] == TAG_NULL);
        },
        SpecValue::Int(i) => {
            assert(bytes[0] == TAG_INT);
            assert(len == 9);
            assert(data.subrange(pos + 1, pos + 9) =~= spec_u64_to_le_bytes(i as u64)) by {
                assert forall|k: int| 0 <= k < 8 implies #[trigger] data.subrange(pos + 1, pos + 9)[k]
                    == spec_u64_to_le_bytes(i as u64)[k] by {
                    assert(data.subrange(pos, pos + 9)[k + 1] == bytes[k + 1]);
                }
            }
            assert(spec_u64_from_le_bytes(spec_u64_to_le_bytes(i as u64)) == i as u64);
            assert((i as u64) as i64 == i) by (bit_vector);
        },
        SpecValue::Double(bits) => {
            assert(bytes[0] == TAG_FLOAT);
            assert(len == 9);
            assert(data.subrange(pos + 1, pos + 9) =~= spec_u64_to_le_bytes(bits)) by {
                assert forall|k: int| 0 <= k < 8 implies #[trigger] data.subrange(pos + 1, pos + 9)[k]
                    == spec_u64_to_le_bytes(bits)[k] by {
                    assert(data.subrange(pos, pos + 9)[k + 1] == bytes[k + 1]);
                }
            }
            assert(spec_u64_from_le_bytes(spec_u64_to_le_bytes(bits)) == bits);
        },
        SpecValue::Bytes(b) => {
            let n = b.len() as int;
            assert(bytes[0] == TAG_BLOB);
            assert(len == 5 + n);
            assert(data.subrange(pos + 1, pos + 5) =~= spec_u32_to_le_bytes(b.len() as u32)) by {
                assert forall|k: int| 0 <= k < 4 implies #[trigger] data.subrange(pos + 1, pos + 5)[k]
                    == spec_u32_to_le_bytes(b.len() as u32)[k] by {
                    assert(data.subrange(pos, pos + len)[k + 1] == bytes[k + 1]);
                }
            }
            assert(spec_u32_from_le_bytes(spec_u32_to_le_bytes(b.len() as u32)) == b.len() as u32);
            assert(data.subrange(pos + 5, pos + 5 + n) =~= b) by {
                assert forall|k: int| 0 <= k < n implies #[trigger] data.subrange(pos + 5, pos + 5 + n)[k]
                    == b[k] by {
                    assert(data.subrange(pos, pos + len)[k + 5] == bytes[k + 5]);
                    assert(bytes[k + 5] == spec_blob_bytes(b)[k + 4]);
                }
            }
        },
    }
}

/// A run of well-formed values encoded back to back inside a larger buffer
/// decodes to exactly those values.
proof fn lemma_decode_values_at(data: Seq<u8>, pos: int, vs: Seq<SpecValue>)
    requires
        forall|i: int| 0 <= i < vs.len() ==> vs[i].spec_wf(),
        0 <= pos,
        pos + spec_values_bytes(vs).len() <= data.len(),
        data.subrange(pos, pos + spec_values_bytes(vs).len()) == spec_values_bytes(vs),
    ensures
        spec_decode_values(data, pos, vs.len()) == vs,
        spec_decode_cursor(data, pos, vs.len()) == pos + spec_values_bytes(vs).len(),
    decreases vs.len(),
{
    if vs.len() == 0 {
        assert(spec_decode_values(data, pos, 0) =~= vs);
    } else {
        let v = vs[0];
        let tail = vs.drop_first();
        let head_bytes = spec_value_bytes(v);
        let tail_bytes = spec_values_bytes(tail);
        let l0 = head_bytes.len() as int;
        let lt = tail_bytes.len() as int;
        assert(spec_values_bytes(vs) == head_bytes + tail_bytes);
        assert(data.subrange(pos, pos + l0) =~= head_bytes) by {
            assert forall|k: int| 0 <= k < l0 implies #[trigger] data.subrange(pos, pos + l0)[k]
                == head_bytes[k] by {
                assert(data.subrange(pos, pos + l0 + lt)[k] == (head_bytes + tail_bytes)[k]);
            }
        }
        lemma_decode_value_at(data, pos, v);
        assert(data.subrange(pos + l0, pos + l0 + lt) =~= tail_bytes) by {
            assert forall|k: int| 0 <= k < lt implies #[trigger] data.subrange(pos + l0, pos + l0 + lt)[k]
                == tail_bytes[k] by {
                assert(data.subrange(pos, pos + l0 + lt)[k + l0] == (head_bytes + tail_bytes)[k
                    + l0]);
            }
        }
        lemma_decode_values_at(data, pos + l0, tail);
        assert(spec_decode_values(data, pos, vs.len()) == seq![v] + spec_decode_values(
            data,
            pos + l0,
            (vs.len() - 1) as nat,
        ));
        assert(seq![v] + tail =~= vs);
    }
}

/// Round trip: decoding an encoded parameter list yields the original values,
/// for every list of well-formed values whose count fits the `u32` prefix —
/// empty blobs, negative integers and float bit patterns included.
pub proof fn lemma_params_round_trip(vs: Seq<SpecValue>)
    requires
        vs.len() <= u32::MAX,
        forall|i: int| 0 <= i < vs.len() ==> vs[i].spec_wf(),
    ensures
        spec_decode_params(spec_params_bytes(vs)) == vs,
{
    vstd::bytes::lemma_auto_spec_u32_to_from_le_bytes();
    let data = spec_params_bytes(vs);
    let count_bytes = spec_u32_to_le_bytes(vs.len() as u32);
    let body = spec_values_bytes(vs);
    assert(data == count_bytes + body);
    assert(data.len() == 4 + body.len());
    assert(data.subrange(0, 4) =~= count_bytes);
    assert(spec_u32_from_le_bytes(spec_u32_to_le_bytes(vs.len() as u32)) == vs.len() as u32);
    assert(data.subrange(4, 4 + body.len() as int) =~= body);
    lemma_decode_values_at(data, 4, vs);
}

/// Decoding `count + 1` values is decoding `count` and then one more at the
/// cursor those left behind.
pub proof fn lemma_decode_values_step(data: Seq<u8>, pos: int, count: nat)
    ensures
        spec_decode_values(data, pos, count + 1) == spec_decode_values(data, pos, count).push(
            spec_decode_value(data, spec_decode_cursor(data, pos, count)).0,
        ),
        spec_decode_cursor(data, pos, count + 1) == spec_decode_value(
            data,
            spec_decode_cursor(data, pos, count),
        ).1,
    decreases count,
{
    let v = spec_decode_value(data, pos).0;
    let p = spec_decode_value(data, pos).1;
    if count == 0 {
        assert(spec_decode_values(data, pos, 1) == seq![v] + spec_decode_values(data, p, 0));
        assert(spec_decode_values(data, p, 0) == Seq::<SpecValue>::empty());
        assert(spec_decode_values(data, pos, 0) == Seq::<SpecValue>::empty());
        assert(spec_decode_cursor(data, pos, 0) == pos);
        assert(spec_decode_cursor(data, pos, 1) == spec_decode_cursor(data, p, 0));
        assert(seq![v] + Seq::<SpecValue>::empty() =~= Seq::<SpecValue>::empty().push(v));
    } else {
        lemma_decode_values_step(data, p, (count - 1) as nat);
        let c = spec_decode_cursor(data, p, (count - 1) as nat);
        assert(spec_decode_values(data, pos, count + 1) == seq![v] + spec_decode_values(
            data,
            p,
            count,
        ));
        assert(spec_decode_values(data, pos, count) == seq![v] + spec_decode_values(
            data,
            p,
            (count - 1) as nat,
        ));
        assert(spec_decode_cursor(data, pos, count + 1) == spec_decode_cursor(data, p, count));
        assert(spec_decode_cursor(data, pos, count) == c);
        assert(spec_decode_values(data, p, count) == spec_decode_values(
            data,
            p,
            (count - 1) as nat,
        ).push(spec_decode_value(data, c).0));
        assert(seq![v] + spec_decode_values(data, p, (count - 1) as nat).push(
            spec_decode_value(data, c).0,
        ) =~= (seq![v] + spec_decode_values(data, p, (count - 1) as nat)).push(
            spec_decode_value(data, c).0,
        ));
    }
}

/// Decoding yields exactly `count` values.
pub proof fn lemma_decode_values_len(data: Seq<u8>, pos: int, count: nat)
    ensures
        spec_decode_values(data, pos, count).len() == count,
    decreases count,
{
    if count > 0 {
        lemma_decode_values_len(data, spec_decode_value(data, pos).1, (count - 1) as nat);
    }
}

/// Decoding `a + b` values is decoding `a`, then `b` more from the cursor
/// they leave behind.
pub proof fn lemma_decode_values_split(data: Seq<u8>, pos: int, a: nat, b: nat)
    ensures
        spec_decode_values(data, pos, a + b) == spec_decode_values(data, pos, a)
            + spec_decode_values(data, spec_decode_cursor(data, pos, a), b),
        spec_decode_cursor(data, pos, a + b) == spec_decode_cursor(
            data,
            spec_decode_cursor(data, pos, a),
            b,
        ),
    decreases a,
{
    if a == 0 {
        assert(spec_decode_values(data, pos, 0) + spec_decode_values(data, pos, b)
            =~= spec_decode_values(data, pos, b));
        assert(spec_decode_cursor(data, pos, 0nat) == pos);
        assert(spec_decode_values(data, pos, 0nat) == Seq::<SpecValue>::empty());
    } else {
        let v = spec_decode_value(data, pos).0;
        let p = spec_decode_value(data, pos).1;
        lemma_decode_values_split(data, p, (a - 1) as nat, b);
        assert(spec_decode_values(data, pos, a + b) == seq![v] + spec_decode_values(
            data,
            p,
            (a + b - 1) as nat,
        ));
        assert((a + b - 1) as nat == (a - 1) as nat + b);
        assert(spec_decode_values(data, pos, a) == seq![v] + spec_decode_values(
            data,
            p,
            (a - 1) as nat,
        ));
        assert(spec_decode_cursor(data, pos, a + b) == spec_decode_cursor(
            data,
            p,
            (a + b - 1) as nat,
        ));
        assert(spec_decode_cursor(data, pos, a) == spec_decode_cursor(data, p, (a - 1) as nat));
        assert(seq![v] + (spec_decode_values(data, p, (a - 1) as nat) + spec_decode_values(
            data,
            spec_decode_cursor(data, p, (a - 1) as nat),
            b,
        )) =~= (seq![v] + spec_decode_values(data, p, (a - 1) as nat)) + spec_decode_values(
            data,
            spec_decode_cursor(data, p, (a - 1) as nat),
            b,
        ));
    }
}

/// A window of the decoded values is what decoding starts to yield from the
/// cursor that the values before the window leave behind.
pub proof fn lemma_decode_values_window(data: Seq<u8>, pos: int, total: nat, a: nat, k: nat)
    requires
        a + k <= total,
    ensures
        spec_decode_values(data, pos, total).subrange(a as int, a + k as int) == spec_decode_values(
            data,
            spec_decode_cursor(data, pos, a),
            k,
        ),
{
    let mid = spec_decode_cursor(data, pos, a);
    lemma_decode_values_len(data, pos, a);
    lemma_decode_values_len(data, mid, k);
    lemma_decode_values_split(data, pos, a, (total - a) as nat);
    lemma_decode_values_split(data, mid, k, (total - a - k) as nat);
    assert(spec_decode_values(data, pos, total).subrange(a as int, a + k as int) =~= spec_decode_values(
        data,
        mid,
        k,
    ));
}

} // verus!
