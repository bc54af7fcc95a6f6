//! Content bodies: opaque binary passthrough.

use vstd::prelude::*;

verus! {

/// A content-body payload: the raw bytes of one body fragment.
#[derive(Debug, PartialEq)]
pub struct ContentBodyPayload {
    pub bytes: Vec<u8>,
}

impl ContentBodyPayload {
    /// The on-wire size of this payload plus the frame-end sentinel.
    pub fn byte_size(&self) -> (r: u32)
        requires
            self.bytes@.len() + 1 <= 0xFFFFFFFF,
        ensures
            r == self.bytes@.len() + 1,
    {
        (self.bytes.len() + 1) as u32
    }
}

/// Decode a content-body payload: the payload bytes are the body.
pub fn decode_payload(payload: Vec<u8>) -> (r: ContentBodyPayload)
    ensures
        r.bytes@ == payload@,
{
    ContentBodyPayload { bytes: payload }
}

/// Encode a content-body payload: the body is the payload bytes.
pub fn encode_payload(payload: ContentBodyPayload) -> (r: Vec<u8>)
    ensures
        r@ == payload.bytes@,
{
    payload.bytes
}

} // verus!
