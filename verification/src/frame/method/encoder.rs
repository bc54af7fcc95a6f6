//! Encoding of method payloads.

use vstd::prelude::*;

use crate::errors::EncodeError;
use crate::methods::args::{Arguments, args_model, encode_args};
use crate::wire::{put_u16, be16};
use super::{MethodPayload, cid_of, mid_of, margs_of, wf_method, enc_method};

verus! {

/// Encode a method payload: class id, method id, then the arguments.
/// Succeeds exactly when the method can stand on the wire.
pub fn encode_payload(payload: MethodPayload) -> (r: Result<Vec<u8>, EncodeError>)
    ensures
        r matches Ok(v) ==> wf_method(payload) && v@ == enc_method(payload),
        r is Err ==> !wf_method(payload),
{
    let ghost p0 = payload;
    let (cid, mid, args): (u16, u16, Arguments) = match payload {
        MethodPayload::Connection(c) => {
            let (m, a) = c.into_args();
            (10, m, a)
        },
        MethodPayload::Channel(c) => {
            let (m, a) = c.into_args();
            (20, m, a)
        },
        MethodPayload::Exchange(c) => {
            let (m, a) = c.into_args();
            (40, m, a)
        },
        MethodPayload::Queue(c) => {
            let (m, a) = c.into_args();
            (50, m, a)
        },
        MethodPayload::Basic(c) => {
            let (m, a) = c.into_args();
            (60, m, a)
        },
        MethodPayload::Tx(c) => {
            let (m, a) = c.into_args();
            (90, m, a)
        },
    };
    proof {
        assert(cid == cid_of(p0));
        assert(mid == mid_of(p0));
        assert(args_model(args.0@) == margs_of(p0));
    }
    let mut buf: Vec<u8> = Vec::new();
    put_u16(&mut buf, cid);
    put_u16(&mut buf, mid);
    match encode_args(&args, &mut buf) {
        Err(e) => Err(e),
        Ok(()) => {
            proof {
                assert(buf@ =~= enc_method(p0));
            }
            Ok(buf)
        },
    }
}

} // verus!
