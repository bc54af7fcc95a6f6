//! Encoding of whole frames.

use vstd::prelude::*;

use crate::errors::EncodeError;
use crate::wire::{put_u8, put_u16, put_u32, push_all};
use super::{
    Frame, FramePayload, FRAME_END_OCTET, type_byte, enc_payload, wf_payload, wf_frame, enc_frame,
    method, content_header, content_body,
};

verus! {

/// Append the encoding of one frame: type byte, channel, payload size,
/// payload bytes, sentinel.  Succeeds exactly when the frame can stand on
/// the wire; on failure the destination is unchanged.
pub fn encode_frame(item: Frame, dst: &mut Vec<u8>) -> (r: Result<(), EncodeError>)
    ensures
        r matches Ok(()) ==> wf_frame(item) && final(dst)@ == old(dst)@ + enc_frame(item),
        r is Err ==> !wf_frame(item) && final(dst)@ == old(dst)@,
{
    let ghost f0 = item;
    let channel = item.header.channel;
    let (tb, payload): (u8, Vec<u8>) = match item.payload {
        FramePayload::Method(mp) => {
            match method::encoder::encode_payload(mp) {
                Err(e) => {
                    return Err(e);
                },
                Ok(v) => (1, v),
            }
        },
        FramePayload::ContentHeader(h) => {
            match content_header::encode_payload(h) {
                Err(e) => {
                    return Err(e);
                },
                Ok(v) => (2, v),
            }
        },
        FramePayload::ContentBody(bp) => (3, content_body::encode_payload(bp)),
        FramePayload::Heartbeat => (8, Vec::new()),
    };
    proof {
        assert(payload@ == enc_payload(f0.payload));
        assert(wf_payload(f0.payload));
        assert(tb == type_byte(f0.payload));
    }
    if payload.len() as u64 > 0xFFFFFFFF {
        return Err(EncodeError::TooLong);
    }
    let ghost d0 = dst@;
    put_u8(dst, tb);
    put_u16(dst, channel);
    put_u32(dst, payload.len() as u32);
    push_all(dst, &payload);
    put_u8(dst, FRAME_END_OCTET);
    proof {
        assert(dst@ =~= d0 + enc_frame(f0));
    }
    Ok(())
}

} // verus!
