//! Encoding of heartbeat payloads.

use vstd::prelude::*;

verus! {

/// Encode a heartbeat payload: a heartbeat carries no payload bytes.
pub fn encode_payload() -> (r: Vec<u8>)
    ensures
        r@ == Seq::<u8>::empty(),
{
    Vec::new()
}

/// The on-wire size of a heartbeat payload.
pub fn byte_size_of_payload() -> (r: u32)
    ensures
        r == 0,
{
    0
}

} // verus!
