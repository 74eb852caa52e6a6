//! Primitive binary layout shared by every buffer that crosses the boundary:
//! little-endian integers and length-prefixed blobs, written into a growing
//! byte vector and read back through a cursor.

use vstd::bytes::*;
use vstd::prelude::*;
use vstd::slice::slice_subrange;

verus! {

/// Little-endian bytes of an `i64`: the bytes of its two's-complement bit
/// pattern, reinterpreted as a `u64`.
pub open spec fn spec_i64_to_le_bytes(v: i64) -> Seq<u8> {
    spec_u64_to_le_bytes(v as u64)
}

/// A blob field on the wire: a `u32` byte length followed by the bytes.
pub open spec fn spec_blob_bytes(b: Seq<u8>) -> Seq<u8>
    recommends
        b.len() <= u32::MAX,
{
    spec_u32_to_le_bytes(b.len() as u32) + b
}

pub fn write_u8(buf: &mut Vec<u8>, v: u8)
    ensures
        final(buf)@ == old(buf)@.push(v),
{
    buf.push(v);
}

pub fn write_u16(buf: &mut Vec<u8>, v: u16)
    ensures
        final(buf)@ == old(buf)@ + spec_u16_to_le_bytes(v),
{
    let mut bytes = u16_to_le_bytes(v);
    buf.append(&mut bytes);
}

pub fn write_u32(buf: &mut Vec<u8>, v: u32)
    ensures
        final(buf)@ == old(buf)@ + spec_u32_to_le_bytes(v),
{
    let mut bytes = u32_to_le_bytes(v);
    buf.append(&mut bytes);
}

pub fn write_u64(buf: &mut Vec<u8>, v: u64)
    ensures
        final(buf)@ == old(buf)@ + spec_u64_to_le_bytes(v),
{
    let mut bytes = u64_to_le_bytes(v);
    buf.append(&mut bytes);
}

pub fn write_i64(buf: &mut Vec<u8>, v: i64)
    ensures
        final(buf)@ == old(buf)@ + spec_i64_to_le_bytes(v),
{
    write_u64(buf, #[verifier::truncate] (v as u64));
}

pub fn write_blob(buf: &mut Vec<u8>, v: &[u8])
    requires
        v@.len() <= u32::MAX,
    ensures
        final(buf)@ == old(buf)@ + spec_blob_bytes(v@),
{
    write_u32(buf, v.len() as u32);
    buf.extend_from_slice(v);
    assert(buf@ == old(buf)@ + spec_blob_bytes(v@));
}

/// Cursor over an immutable byte buffer; every read either consumes exactly
/// the bytes of one field or reports `None` for a short buffer.
pub struct BinaryReader<'a> {
    data: &'a [u8],
    pos: usize,
}

impl<'a> BinaryReader<'a> {
    /// The whole underlying buffer.
    pub closed spec fn bytes(self) -> Seq<u8> {
        self.data@
    }

    /// The cursor: how many bytes have been consumed.
    pub closed spec fn cursor(self) -> int {
        self.pos as int
    }

    /// The cursor never runs past the end of the buffer.
    pub open spec fn wf(self) -> bool {
        0 <= self.cursor() <= self.bytes().len()
    }

    pub fn new(data: &'a [u8]) -> (r: Self)
        ensures
            r.wf(),
            r.bytes() == data@,
            r.cursor() == 0,
    {
        Self { data, pos: 0 }
    }

    pub fn read_u8(&mut self) -> (r: Option<u8>)
        requires
            old(self).wf(),
        ensures
            final(self).wf(),
            final(self).bytes() == old(self).bytes(),
            old(self).cursor() + 1 <= old(self).bytes().len() ==> {
                &&& r == Some(old(self).bytes()[old(self).cursor()])
                &&& final(self).cursor() == old(self).cursor() + 1
            },
            old(self).cursor() + 1 > old(self).bytes().len() ==> {
                &&& r is None
                &&& final(self).cursor() == old(self).cursor()
            },
    {
        if self.pos < self.data.len() {
            let v = *vstd::slice::slice_index_get(self.data, self.pos);
            self.pos = self.pos + 1;
            Some(v)
        } else {
            None
        }
    }

    pub fn read_u32(&mut self) -> (r: Option<u32>)
        requires
            old(self).wf(),
        ensures
            final(self).wf(),
            final(self).bytes() == old(self).bytes(),
            old(self).cursor() + 4 <= old(self).bytes().len() ==> {
                &&& r == Some(
                    spec_u32_from_le_bytes(
                        old(self).bytes().subrange(old(self).cursor(), old(self).cursor() + 4),
                    ),
                )
                &&& final(self).cursor() == old(self).cursor() + 4
            },
            old(self).cursor() + 4 > old(self).bytes().len() ==> {
                &&& r is None
                &&& final(self).cursor() == old(self).cursor()
            },
    {
        if 4 <= self.data.len() - self.pos {
            let field = slice_subrange(self.data, self.pos, self.pos + 4);
            let v = u32_from_le_bytes(field);
            self.pos = self.pos + 4;
            Some(v)
        } else {
            None
        }
    }

    pub fn read_u64(&mut self) -> (r: Option<u64>)
        requires
            old(self).wf(),
        ensures
            final(self).wf(),
            final(self).bytes() == old(self).bytes(),
            old(self).cursor() + 8 <= old(self).bytes().len() ==> {
                &&& r == Some(
                    spec_u64_from_le_bytes(
                        old(self).bytes().subrange(old(self).cursor(), old(self).cursor() + 8),
                    ),
                )
                &&& final(self).cursor() == old(self).cursor() + 8
            },
            old(self).cursor() + 8 > old(self).bytes().len() ==> {
                &&& r is None
                &&& final(self).cursor() == old(self).cursor()
            },
    {
        if 8 <= self.data.len() - self.pos {
            let field = slice_subrange(self.data, self.pos, self.pos + 8);
            let v = u64_from_le_bytes(field);
            self.pos = self.pos + 8;
            Some(v)
        } else {
            None
        }
    }

    pub fn read_i64(&mut self) -> (r: Option<i64>)
        requires
            old(self).wf(),
        ensures
            final(self).wf(),
            final(self).bytes() == old(self).bytes(),
            old(self).cursor() + 8 <= old(self).bytes().len() ==> {
                &&& r == Some(
                    spec_u64_from_le_bytes(
                        old(self).bytes().subrange(old(self).cursor(), old(self).cursor() + 8),
                    ) as i64,
                )
                &&& final(self).cursor() == old(self).cursor() + 8
            },
            old(self).cursor() + 8 > old(self).bytes().len() ==> {
                &&& r is None
                &&& final(self).cursor() == old(self).cursor()
            },
    {
        match self.read_u64() {
            Some(v) => Some(#[verifier::truncate] (v as i64)),
            None => None,
        }
    }

    pub fn read_blob(&mut self) -> (r: Option<Vec<u8>>)
        requires
            old(self).wf(),
        ensures
            final(self).wf(),
            final(self).bytes() == old(self).bytes(),
            old(self).cursor() + 4 > old(self).bytes().len() ==> {
                &&& r is None
                &&& final(self).cursor() == old(self).cursor()
            },
            old(self).cursor() + 4 <= old(self).bytes().len() ==> {
                let n = spec_u32_from_le_bytes(
                    old(self).bytes().subrange(old(self).cursor(), old(self).cursor() + 4),
                ) as int;
                let body = old(self).cursor() + 4;
                if body + n <= old(self).bytes().len() {
                    &&& r matches Some(b) && b@ == old(self).bytes().subrange(body, body + n)
                    &&& final(self).cursor() == body + n
                } else {
                    &&& r is None
                    &&& final(self).cursor() == body
                }
            },
    {
        let n = match self.read_u32() {
            Some(n) => n as usize,
            None => {
                return None;
            },
        };
        if n <= self.data.len() - self.pos {
            let field = slice_subrange(self.data, self.pos, self.pos + n);
            let out = vstd::slice::slice_to_vec(field);
            self.pos = self.pos + n;
            Some(out)
        } else {
            None
        }
    }
}

} // verus!
