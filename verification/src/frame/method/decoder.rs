//! Decoding of method payloads.

use vstd::prelude::*;

use crate::errors::DecodeError;
use crate::args::field_error;
use crate::methods::args::{
    ArgModel, args_model, args_match, wf_args, enc_args, decode_args, lemma_args_prefix,
};
use crate::wire::{get_u16, be16, be16_val, prefix_at, lemma_be16_val, lemma_subrange_concat};
use super::{
    MethodPayload, ConnectionClass, ChannelClass, ExchangeClass, QueueClass, BasicClass, TxClass,
    cid_of, mid_of, margs_of, wf_method, enc_method, method_model, schema, schema_of,
    lemma_margs_match_schema,
};

verus! {

/// Under the hypothesis that a well-formed method encoding fills the
/// payload: the id words denote its class and method, and its argument
/// encoding follows.
proof fn lemma_method_header(b: Seq<u8>, p: MethodPayload)
    requires
        prefix_at(b, 0, enc_method(p)),
    ensures
        b.len() >= 4,
        b.subrange(0, 2) == be16(cid_of(p)),
        b.subrange(2, 4) == be16(mid_of(p)),
        prefix_at(b, 4, enc_args(margs_of(p))),
{
    let e = enc_method(p);
    let h = be16(cid_of(p)) + be16(mid_of(p));
    let aa = enc_args(margs_of(p));
    let ch = b.subrange(0, e.len() as int);
    assert(e == h + aa);
    assert(e.len() == 4 + aa.len());
    assert(b.subrange(0, 2) =~= be16(cid_of(p))) by {
        assert(forall|i: int| 0 <= i < 2 ==> #[trigger] ch[i] == e[i]);
        assert(forall|i: int| 0 <= i < 2 ==> #[trigger] e[i] == h[i]);
        assert(forall|i: int| 0 <= i < 2 ==> #[trigger] h[i] == be16(cid_of(p))[i]);
    }
    assert(b.subrange(2, 4) =~= be16(mid_of(p))) by {
        assert(b[2] == e[2] && b[3] == e[3]);
        assert(e[2] == h[2] && e[3] == h[3]);
        assert(h[2] == be16(mid_of(p))[0] && h[3] == be16(mid_of(p))[1]);
    }
    assert(b.subrange(4, 4 + aa.len() as int) =~= aa) by {
        assert(forall|i: int| 0 <= i < aa.len() ==> #[trigger] aa[i] == e[4 + i]);
        assert(forall|i: int| 0 <= i < aa.len() ==> #[trigger] b.subrange(
            4,
            4 + aa.len() as int,
        )[i] == b[4 + i]);
        assert(forall|i: int| 0 <= i < aa.len() ==> #[trigger] b[4 + i] == e[4 + i]);
    }
}

/// Decode a method payload from a frame's payload bytes.
///
/// Decoding the encoding of any well-formed method yields that method back;
/// an id pair with no schema is refused as unknown.
#[verifier::rlimit(100)]
#[verifier::spinoff_prover]
pub fn decode_payload(b: &Vec<u8>) -> (r: Result<MethodPayload, DecodeError>)
    ensures
        forall|p: MethodPayload| #![trigger enc_method(p)]
            wf_method(p) && prefix_at(b@, 0, enc_method(p)) ==> (r matches Ok(g) && method_model(g)
                == method_model(p)),
        r matches Err(e) ==> field_error(e) || e is UnknownClassIdOrMethodId,
        b@.len() >= 4 && schema(
            be16_val(b@.subrange(0, 2)),
            be16_val(b@.subrange(2, 4)),
        ) is None ==> r == Err::<MethodPayload, DecodeError>(
            DecodeError::UnknownClassIdOrMethodId(
                be16_val(b@.subrange(0, 2)),
                be16_val(b@.subrange(2, 4)),
            ),
        ),
{
    let n = b.len();
    if n < 4 {
        proof {
            assert forall|p: MethodPayload| #![trigger enc_method(p)]
                !(wf_method(p) && prefix_at(b@, 0, enc_method(p))) by {
                if wf_method(p) && prefix_at(b@, 0, enc_method(p)) {
                    assert(enc_method(p).len() >= 4);
                    assert(false);
                }
            }
        }
        return Err(DecodeError::PayloadTruncated);
    }
    let cid = get_u16(b, 0);
    let mid = get_u16(b, 2);
    let tys = match schema_of(cid, mid) {
        None => {
            proof {
                assert forall|p: MethodPayload| #![trigger enc_method(p)]
                    !(wf_method(p) && prefix_at(b@, 0, enc_method(p))) by {
                    if wf_method(p) && prefix_at(b@, 0, enc_method(p)) {
                        lemma_method_header(b@, p);
                        lemma_be16_val(cid_of(p));
                        lemma_be16_val(mid_of(p));
                        lemma_margs_match_schema(p);
                        assert(false);
                    }
                }
            }
            return Err(DecodeError::UnknownClassIdOrMethodId(cid, mid));
        },
        Some(t) => t,
    };
    let ghost tys0 = tys@;
    let (args, _consumed) = match decode_args(&tys, b, 4) {
        Err(e) => {
            proof {
                assert forall|p: MethodPayload| #![trigger enc_method(p)]
                    !(wf_method(p) && prefix_at(b@, 0, enc_method(p))) by {
                    if wf_method(p) && prefix_at(b@, 0, enc_method(p)) {
                        lemma_method_header(b@, p);
                        lemma_be16_val(cid_of(p));
                        lemma_be16_val(mid_of(p));
                        lemma_margs_match_schema(p);
                        assert(wf_args(margs_of(p)) && args_match(margs_of(p), tys0) && prefix_at(
                            b@,
                            4,
                            enc_args(margs_of(p)),
                        ));
                        assert(false);
                    }
                }
            }
            return Err(e);
        },
        Ok(x) => x,
    };
    let ghost am = args_model(args.0@);
    proof {
        assert forall|p: MethodPayload| #![trigger enc_method(p)]
            wf_method(p) && prefix_at(b@, 0, enc_method(p)) implies cid_of(p) == cid && mid_of(p)
            == mid && margs_of(p) == am by {
            lemma_method_header(b@, p);
            lemma_be16_val(cid_of(p));
            lemma_be16_val(mid_of(p));
            lemma_margs_match_schema(p);
            let nn = b@.len() as int;
            lemma_subrange_concat(b@, 4, 4 + enc_args(am).len() as int, nn);
            lemma_subrange_concat(b@, 4, 4 + enc_args(margs_of(p)).len() as int, nn);
            assert(enc_args(am) + b@.subrange(4 + enc_args(am).len() as int, nn) == enc_args(
                margs_of(p),
            ) + b@.subrange(4 + enc_args(margs_of(p)).len() as int, nn));
            lemma_args_prefix(
                am,
                margs_of(p),
                tys0,
                b@.subrange(4 + enc_args(am).len() as int, nn),
                b@.subrange(4 + enc_args(margs_of(p)).len() as int, nn),
            );
        }
    }
    let mp: MethodPayload = match cid {
        10 => {
            match ConnectionClass::from_args(mid, args) {
                None => {
                    return Err(DecodeError::UnknownClassIdOrMethodId(cid, mid));
                },
                Some(c) => MethodPayload::Connection(c),
            }
        },
        20 => {
            match ChannelClass::from_args(mid, args) {
                None => {
                    return Err(DecodeError::UnknownClassIdOrMethodId(cid, mid));
                },
                Some(c) => MethodPayload::Channel(c),
            }
        },
        40 => {
            match ExchangeClass::from_args(mid, args) {
                None => {
                    return Err(DecodeError::UnknownClassIdOrMethodId(cid, mid));
                },
                Some(c) => MethodPayload::Exchange(c),
            }
        },
        50 => {
            match QueueClass::from_args(mid, args) {
                None => {
                    return Err(DecodeError::UnknownClassIdOrMethodId(cid, mid));
                },
                Some(c) => MethodPayload::Queue(c),
            }
        },
        60 => {
            match BasicClass::from_args(mid, args) {
                None => {
                    return Err(DecodeError::UnknownClassIdOrMethodId(cid, mid));
                },
                Some(c) => MethodPayload::Basic(c),
            }
        },
        90 => {
            match TxClass::from_args(mid, args) {
                None => {
                    return Err(DecodeError::UnknownClassIdOrMethodId(cid, mid));
                },
                Some(c) => MethodPayload::Tx(c),
            }
        },
        _ => {
            proof {
                assert(false);
            }
            return Err(DecodeError::UnknownClassIdOrMethodId(cid, mid));
        },
    };
    Ok(mp)
}

} // verus!
