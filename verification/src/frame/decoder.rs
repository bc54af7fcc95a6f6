//! Decoding of whole frames from a growing byte buffer.

use vstd::prelude::*;

use crate::errors::DecodeError;
use crate::wire::{
    be16, be16_val, be32, be32_val, get_u16, get_u32, prefix_at, subvec, lemma_be16_val, lemma_be32_val,
};
use super::{
    Frame, FrameHeader, FramePayload, FRAME_END_OCTET, type_byte, enc_payload, wf_frame,
    enc_frame, frame_model, needs_more, method, content_header, content_body,
};

verus! {

/// What `decode_frame` guarantees, relating the buffer before and after the
/// call to its result:
/// - "need more bytes" comes exactly when the buffer holds less than one
///   complete frame, and then (as on every failure) the buffer is unchanged;
/// - a bad sentinel and a bad type byte are reported exactly, and a complete
///   well-sentineled frame with type byte 4 or 8 decodes as a heartbeat on
///   its channel;
/// - on success exactly the frame's bytes leave the front of the buffer;
/// - decoding the encoding of any well-formed frame yields a frame carrying
///   the same channel and payload.
pub open spec fn decode_frame_post(
    b0: Seq<u8>,
    b1: Seq<u8>,
    r: Result<Option<Frame>, DecodeError>,
) -> bool {
    &&& (r == Ok::<Option<Frame>, DecodeError>(None) <==> needs_more(b0))
    &&& (r == Ok::<Option<Frame>, DecodeError>(None) ==> b1 == b0)
    &&& (r is Err ==> b1 == b0)
    &&& (r == Err::<Option<Frame>, DecodeError>(DecodeError::InvalidFrameEnd) <==> !needs_more(
        b0,
    ) && b0[7 + be32_val(b0.subrange(3, 7))] != FRAME_END_OCTET)
    &&& (match r {
        Err(DecodeError::InvalidFrameTypeByte(tb)) => tb == b0[0] && !needs_more(b0) && !(b0[0]
            == 1 || b0[0] == 2 || b0[0] == 3 || b0[0] == 4 || b0[0] == 8),
        _ => true,
    })
    &&& (!needs_more(b0) && b0[7 + be32_val(b0.subrange(3, 7))] == FRAME_END_OCTET && !(b0[0] == 1
        || b0[0] == 2 || b0[0] == 3 || b0[0] == 4 || b0[0] == 8) ==> r == Err::<
        Option<Frame>,
        DecodeError,
    >(DecodeError::InvalidFrameTypeByte(b0[0])))
    &&& (!needs_more(b0) && b0[7 + be32_val(b0.subrange(3, 7))] == FRAME_END_OCTET && (b0[0] == 4
        || b0[0] == 8) ==> (match r {
        Ok(Some(g)) => g.header.channel == be16_val(b0.subrange(1, 3)) && g.payload is Heartbeat,
        _ => false,
    }))
    &&& (match r {
        Ok(Some(f)) => !needs_more(b0) && b1 == b0.subrange(
            8 + be32_val(b0.subrange(3, 7)),
            b0.len() as int,
        ),
        _ => true,
    })
    &&& (forall|f: Frame| #![trigger enc_frame(f)]
        wf_frame(f) && prefix_at(b0, 0, enc_frame(f)) ==> (match r {
            Ok(Some(g)) => frame_model(g) == frame_model(f),
            _ => false,
        }))
}

/// Under the hypothesis that a frame encoding sits at the front of the
/// buffer: the header words denote its fields and the payload follows.
proof fn lemma_frame_chunks(b: Seq<u8>, f: Frame)
    requires
        wf_frame(f),
        prefix_at(b, 0, enc_frame(f)),
    ensures
        b.len() >= 8 + enc_payload(f.payload).len(),
        b[0] == type_byte(f.payload),
        b.subrange(1, 3) == be16(f.header.channel),
        b.subrange(3, 7) == be32(enc_payload(f.payload).len() as u32),
        b.subrange(7, 7 + enc_payload(f.payload).len() as int) == enc_payload(f.payload),
        b[7 + enc_payload(f.payload).len() as int] == FRAME_END_OCTET,
        !needs_more(b),
{
    let e = enc_frame(f);
    let pl = enc_payload(f.payload);
    let h = seq![type_byte(f.payload)] + be16(f.header.channel) + be32(pl.len() as u32);
    assert(e == h + pl + seq![FRAME_END_OCTET]);
    assert(h.len() == 7);
    assert(e.len() == 8 + pl.len());
    assert(b.subrange(0, e.len() as int) == e);
    assert(b[0] == e[0] && e[0] == h[0] && h[0] == type_byte(f.payload));
    assert(b.subrange(1, 3) =~= be16(f.header.channel)) by {
        assert(b[1] == e[1] && b[2] == e[2]);
        assert(e[1] == h[1] && e[2] == h[2]);
        assert(h[1] == be16(f.header.channel)[0] && h[2] == be16(f.header.channel)[1]);
    }
    assert(b.subrange(3, 7) =~= be32(pl.len() as u32)) by {
        assert(forall|i: int| 0 <= i < 4 ==> #[trigger] be32(pl.len() as u32)[i] == h[3 + i]);
        assert(forall|i: int| 0 <= i < 4 ==> #[trigger] h[3 + i] == e[3 + i]);
        assert(forall|i: int| 0 <= i < 4 ==> #[trigger] e[3 + i] == b[3 + i]);
        assert(forall|i: int| 0 <= i < 4 ==> #[trigger] b.subrange(3, 7)[i] == b[3 + i]);
    }
    assert(b.subrange(7, 7 + pl.len() as int) =~= pl) by {
        assert(forall|i: int| 0 <= i < pl.len() ==> #[trigger] pl[i] == (h + pl)[7 + i]);
        assert(forall|i: int| 0 <= i < pl.len() ==> #[trigger] (h + pl)[7 + i] == e[7 + i]);
        assert(forall|i: int| 0 <= i < pl.len() ==> #[trigger] e[7 + i] == b[7 + i]);
        assert(forall|i: int| 0 <= i < pl.len() ==> #[trigger] b.subrange(7, 7 + pl.len() as int)[i]
            == b[7 + i]);
    }
    assert(b[7 + pl.len() as int] == e[7 + pl.len() as int]);
    assert(e[7 + pl.len() as int] == FRAME_END_OCTET);
    lemma_be32_val(pl.len() as u32);
    assert(be32_val(b.subrange(3, 7)) == pl.len());
}

/// Any strict prefix of an encoded frame leaves the framer waiting: with
/// `decode_frame_post`, decoding such a prefix returns `Ok(None)` ("need
/// more bytes") and leaves the buffer untouched.
proof fn lemma_prefix_of_sized(e: Seq<u8>, k: int, sz: u32)
    requires
        e.len() == 8 + sz,
        e.subrange(3, 7) == be32(sz),
        0 <= k < e.len(),
    ensures
        needs_more(e.subrange(0, k)),
{
    let p = e.subrange(0, k);
    if k >= 8 {
        assert(p.subrange(3, 7) =~= e.subrange(3, 7)) by {
            assert(forall|i: int| 0 <= i < 4 ==> #[trigger] p.subrange(3, 7)[i] == p[3 + i]);
            assert(forall|i: int| 0 <= i < 4 ==> #[trigger] p[3 + i] == e[3 + i]);
            assert(forall|i: int| 0 <= i < 4 ==> #[trigger] e.subrange(3, 7)[i] == e[3 + i]);
        }
        lemma_be32_val(sz);
        assert(p.len() < 8 + be32_val(p.subrange(3, 7)));
    }
}

#[verifier::rlimit(100)]
#[verifier::spinoff_prover]
pub proof fn lemma_partial_frame_needs_more(f: Frame, k: int)
    requires
        wf_frame(f),
        0 <= k < enc_frame(f).len(),
    ensures
        needs_more(enc_frame(f).subrange(0, k)),
{
    let e = enc_frame(f);
    assert(e.subrange(0, e.len() as int) =~= e);
    lemma_frame_chunks(e, f);
    lemma_prefix_of_sized(e, k, enc_payload(f.payload).len() as u32);
}

/// Changing the final sentinel octet of an encoded frame to any other value
/// makes the framer refuse the buffer: with `decode_frame_post`, decoding it
/// returns `Err(InvalidFrameEnd)`.
#[verifier::rlimit(100)]
#[verifier::spinoff_prover]
pub proof fn lemma_sentinel_enforced(f: Frame, x: u8)
    requires
        wf_frame(f),
        x != FRAME_END_OCTET,
    ensures
        ({
            let m = enc_frame(f).update(enc_frame(f).len() - 1, x);
            !needs_more(m) && m[7 + be32_val(m.subrange(3, 7))] != FRAME_END_OCTET
        }),
{
    let e = enc_frame(f);
    let m = e.update(e.len() - 1, x);
    assert(e.subrange(0, e.len() as int) =~= e);
    lemma_frame_chunks(e, f);
    assert(m.subrange(3, 7) =~= e.subrange(3, 7)) by {
        assert(forall|i: int| 0 <= i < 4 ==> #[trigger] m.subrange(3, 7)[i] == m[3 + i]);
        assert(forall|i: int| 0 <= i < 4 ==> #[trigger] m[3 + i] == e[3 + i]);
        assert(forall|i: int| 0 <= i < 4 ==> #[trigger] e.subrange(3, 7)[i] == e[3 + i]);
    }
    assert(m[7 + be32_val(m.subrange(3, 7))] == x);
}

/// Extract one frame from the front of `src`.
///
/// Returns `Ok(None)` ("need more bytes") when the buffer holds less than
/// one complete frame; on success removes exactly the consumed bytes from
/// the front.
#[verifier::rlimit(100)]
#[verifier::spinoff_prover]
pub fn decode_frame(src: &mut Vec<u8>) -> (r: Result<Option<Frame>, DecodeError>)
    ensures
        decode_frame_post(old(src)@, final(src)@, r),
{
    let ghost b0 = src@;
    let n = src.len();
    if n < 8 {
        proof {
            assert forall|f: Frame| #![trigger enc_frame(f)]
                !(wf_frame(f) && prefix_at(b0, 0, enc_frame(f))) by {
                if wf_frame(f) && prefix_at(b0, 0, enc_frame(f)) {
                    lemma_frame_chunks(b0, f);
                    assert(false);
                }
            }
        }
        return Ok(None);
    }
    let size32 = get_u32(src, 3);
    let size = size32 as usize;
    if n - 8 < size {
        proof {
            assert(needs_more(b0));
            assert forall|f: Frame| #![trigger enc_frame(f)]
                !(wf_frame(f) && prefix_at(b0, 0, enc_frame(f))) by {
                if wf_frame(f) && prefix_at(b0, 0, enc_frame(f)) {
                    lemma_frame_chunks(b0, f);
                    assert(false);
                }
            }
        }
        return Ok(None);
    }
    proof {
        assert(!needs_more(b0));
    }
    let endb = src[7 + size];
    if endb != FRAME_END_OCTET {
        proof {
            assert forall|f: Frame| #![trigger enc_frame(f)]
                !(wf_frame(f) && prefix_at(b0, 0, enc_frame(f))) by {
                if wf_frame(f) && prefix_at(b0, 0, enc_frame(f)) {
                    lemma_frame_chunks(b0, f);
                    crate::wire::lemma_be32_inj(
                        size32,
                        enc_payload(f.payload).len() as u32,
                    );
                    assert(false);
                }
            }
        }
        return Err(DecodeError::InvalidFrameEnd);
    }
    let tb = src[0];
    let channel = get_u16(src, 1);
    let payload: Vec<u8> = subvec(src, 7, 7 + size);
    let fp: FramePayload = match tb {
        1 => {
            match method::decoder::decode_payload(&payload) {
                Err(e) => {
                    proof {
                        no_frame_fits(b0, payload@, size32, 1);
                    }
                    return Err(e);
                },
                Ok(mp) => FramePayload::Method(mp),
            }
        },
        2 => {
            match content_header::decode_payload(&payload) {
                Err(e) => {
                    proof {
                        assert forall|cls: u16, size: u64, pp: content_header::Properties|
                            #![trigger content_header::enc_header(cls, size, pp)]
                            !(content_header::wf_props(pp) && payload@
                                == content_header::enc_header(cls, size, pp)) by {
                            if content_header::wf_props(pp) && payload@
                                == content_header::enc_header(cls, size, pp) {
                                assert(false);
                            }
                        }
                        no_frame_fits(b0, payload@, size32, 2);
                    }
                    return Err(e);
                },
                Ok(h) => FramePayload::ContentHeader(h),
            }
        },
        3 => FramePayload::ContentBody(content_body::decode_payload(payload)),
        4 => FramePayload::Heartbeat,
        8 => FramePayload::Heartbeat,
        _ => {
            proof {
                assert forall|f: Frame| #![trigger enc_frame(f)]
                    !(wf_frame(f) && prefix_at(b0, 0, enc_frame(f))) by {
                    if wf_frame(f) && prefix_at(b0, 0, enc_frame(f)) {
                        lemma_frame_chunks(b0, f);
                        assert(false);
                    }
                }
            }
            return Err(DecodeError::InvalidFrameTypeByte(tb));
        },
    };
    let f = Frame { header: FrameHeader { channel }, payload: fp };
    let rest = subvec(src, 8 + size, n);
    *src = rest;
    proof {
        assert forall|g: Frame| #![trigger enc_frame(g)]
            wf_frame(g) && prefix_at(b0, 0, enc_frame(g)) implies frame_model(f) == frame_model(
            g,
        ) by {
            lemma_frame_chunks(b0, g);
            lemma_be16_val(g.header.channel);
            crate::wire::lemma_be32_inj(size32, enc_payload(g.payload).len() as u32);
            assert(payload@ == enc_payload(g.payload));
            match g.payload {
                FramePayload::Method(m) => {
                    assert(payload@.subrange(0, method::enc_method(m).len() as int)
                        =~= method::enc_method(m));
                    assert(prefix_at(payload@, 0, method::enc_method(m)));
                },
                FramePayload::ContentBody(cb) => {
                    assert(payload@ == cb.bytes@);
                },
                FramePayload::Heartbeat => {
                    assert(enc_payload(g.payload).len() == 0);
                },
                FramePayload::ContentHeader(hh) => {
                    assert(payload@ == content_header::enc_header(
                        hh.class_id,
                        hh.body_size,
                        hh.properties,
                    ));
                },
            }
        }
    }
    Ok(Some(f))
}

/// Under the hypothesis that a well-formed method or header frame encoding
/// fills the buffer, its payload decoder cannot have refused the payload.
proof fn no_frame_fits(b0: Seq<u8>, pl: Seq<u8>, size32: u32, tb: u8)
    requires
        b0.len() >= 8,
        tb == b0[0],
        be32(size32) == b0.subrange(3, 7),
        8 + size32 <= b0.len(),
        pl == b0.subrange(7, 7 + size32 as int),
        tb == 1 || tb == 2,
        tb == 1 ==> forall|p: method::MethodPayload| #![trigger method::enc_method(p)]
            !(method::wf_method(p) && prefix_at(pl, 0, method::enc_method(p))),
        tb == 2 ==> forall|cls: u16, size: u64, pp: content_header::Properties|
            #![trigger content_header::enc_header(cls, size, pp)]
            !(content_header::wf_props(pp) && pl == content_header::enc_header(cls, size, pp)),
    ensures
        forall|f: Frame| #![trigger enc_frame(f)]
            !(wf_frame(f) && prefix_at(b0, 0, enc_frame(f))),
{
    assert forall|f: Frame| #![trigger enc_frame(f)]
        !(wf_frame(f) && prefix_at(b0, 0, enc_frame(f))) by {
        if wf_frame(f) && prefix_at(b0, 0, enc_frame(f)) {
            lemma_frame_chunks(b0, f);
            crate::wire::lemma_be32_inj(size32, enc_payload(f.payload).len() as u32);
            if tb == 1 {
                match f.payload {
                    FramePayload::Method(m) => {
                        assert(pl == method::enc_method(m));
                        assert(pl.subrange(0, method::enc_method(m).len() as int)
                            =~= method::enc_method(m));
                        assert(prefix_at(pl, 0, method::enc_method(m)));
                        assert(false);
                    },
                    _ => {
                        assert(false);
                    },
                }
            } else {
                assert(type_byte(f.payload) == 2);
                match f.payload {
                    FramePayload::ContentHeader(hh) => {
                        assert(pl == content_header::enc_header(
                            hh.class_id,
                            hh.body_size,
                            hh.properties,
                        ));
                        assert(false);
                    },
                    _ => {
                        assert(false);
                    },
                }
            }
        }
    }
}

} // verus!
