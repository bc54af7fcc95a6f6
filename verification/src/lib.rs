//! An AMQP 0-9-1 wire codec: a bidirectional, bit-exact translation between
//! byte streams and typed frames.
//!
//! The layout of a frame on the wire is
//!
//! ```text
//! position   0      1         3      7         size+7      size+8
//!            +------+---------+------+---------+-----------+
//!            | type | channel | size | payload | frame_end |
//!            +------+---------+------+---------+-----------+
//! length        1        2        4     size         1
//! ```
//!
//! where `channel` and `size` are big-endian and `frame_end` is the fixed
//! sentinel octet `0xCE`.  The payload is interpreted according to the frame
//! type: a method payload, a content header, an opaque content body, or the
//! empty heartbeat payload.
//!
//! Every encoder states in its contract exactly which bytes it appends, in
//! terms of spec-level encoding functions over an abstract model of each
//! value; the decoders state exactly when they refuse their input, and that
//! decoding an encoded value yields the value back.

pub mod errors;
pub mod wire;
pub mod args;
pub mod methods;
pub mod frame;

use vstd::prelude::*;

use crate::errors::{DecodeError, EncodeError};
use crate::frame::{Frame, decoder, encoder};

verus! {

/// Stateless adapter that presents the framer to a streaming transport:
/// `decode` consumes at most one complete frame from the front of a growing
/// buffer, `encode` appends one frame to an output buffer.
pub struct Codec;

impl Codec {
    /// Extract one frame from the front of `src`.
    ///
    /// Returns `Ok(None)` ("need more bytes") without touching `src` when
    /// the buffer does not yet hold a complete frame; on success removes
    /// exactly the consumed bytes from the front of `src`.
    pub fn decode(src: &mut Vec<u8>) -> (r: Result<Option<Frame>, DecodeError>)
        ensures
            decoder::decode_frame_post(old(src)@, final(src)@, r),
    {
        decoder::decode_frame(src)
    }

    /// Append the encoding of `item` to `dst`.
    ///
    /// Succeeds exactly when the frame can stand on the wire; on failure
    /// `dst` is unchanged.
    pub fn encode(item: Frame, dst: &mut Vec<u8>) -> (r: Result<(), EncodeError>)
        ensures
            r matches Ok(()) ==> crate::frame::wf_frame(item) && final(dst)@ == old(dst)@
                + crate::frame::enc_frame(item),
            r is Err ==> !crate::frame::wf_frame(item) && final(dst)@ == old(dst)@,
    {
        encoder::encode_frame(item, dst)
    }
}

} // verus!
