//! Status envelopes delivered to the completion callback.
//!
//! Every request ends in exactly one payload buffer: an error envelope
//! `u8 status(=Error) || blob message`, a result envelope (see the result
//! serializer), or a handle-creation envelope whose fixed shape mirrors the
//! result header for forward-compatible alignment.

use crate::wire::{spec_blob_bytes, write_blob, write_u32, write_u64, write_u8};
use vstd::bytes::{spec_u32_to_le_bytes, spec_u64_to_le_bytes};
use vstd::prelude::*;
use vstd::string::StringSliceAdditionalSpecFns;

verus! {

pub const STATUS_ERROR: u8 = 0;

pub const STATUS_OK: u8 = 1;

/// The wire bytes of an error envelope carrying a message.
pub open spec fn spec_error_bytes(msg: Seq<u8>) -> Seq<u8>
    recommends
        msg.len() <= u32::MAX,
{
    seq![STATUS_ERROR] + spec_blob_bytes(msg)
}

/// The wire bytes of a handle-creation envelope: an Ok status, the handle,
/// and three reserved zero fields.
pub open spec fn spec_handle_envelope_bytes(handle: u64) -> Seq<u8> {
    seq![STATUS_OK] + spec_u64_to_le_bytes(handle) + spec_u64_to_le_bytes(0u64)
        + spec_u32_to_le_bytes(0u32) + spec_u32_to_le_bytes(0u32)
}

/// Encodes an error envelope from a message string (its UTF-8 bytes travel
/// as the blob).
pub fn encode_error(msg: &str) -> (r: Vec<u8>)
    requires
        msg.spec_bytes().len() <= u32::MAX,
    ensures
        r@ == spec_error_bytes(msg.spec_bytes()),
{
    let mut buf: Vec<u8> = Vec::new();
    write_u8(&mut buf, STATUS_ERROR);
    write_blob(&mut buf, msg.as_bytes());
    assert(buf@ =~= spec_error_bytes(msg.spec_bytes()));
    buf
}

/// Encodes the envelope that announces a freshly created handle.
pub fn encode_handle_envelope(handle: u64) -> (r: Vec<u8>)
    ensures
        r@ == spec_handle_envelope_bytes(handle),
{
    let mut buf: Vec<u8> = Vec::new();
    write_u8(&mut buf, STATUS_OK);
    write_u64(&mut buf, handle);
    write_u64(&mut buf, 0);
    write_u32(&mut buf, 0);
    write_u32(&mut buf, 0);
    assert(buf@ =~= spec_handle_envelope_bytes(handle));
    buf
}

} // verus!
