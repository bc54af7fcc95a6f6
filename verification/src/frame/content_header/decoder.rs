//! Decoding of content-header payloads.
//!
//! The decoder is strict: the weight word must be zero, the three low bits
//! of the flags word must be exactly the end-of-list bit, and nothing may
//! follow the announced properties.  On success the whole payload is
//! exactly the encoding of the result, and decoding the encoding of any
//! well-formed header yields its fields back.

use vstd::prelude::*;

use crate::args::{AmqpString, FieldTable, table_model, field_error};
use crate::errors::DecodeError;
use crate::methods::args::{
    ArgModel, ArgumentDecodingInfo, args_model, arg_model, arg_ty, args_match, wf_args, wf_arg,
    enc_args, enc_arg, decode_args, lemma_args_prefix, lemma_args_model_index,
    lemma_enc_args_concat, take_octet, take_longlong, take_short_string, take_table,
};
use crate::wire::{
    get_u16, get_u64, be16, be64, be16_val, prefix_at, lemma_be16_val, lemma_be64_val, lemma_be16_inj,
    lemma_subrange_concat, from_u64_bits, to_u64_bits, i64_of_u64, u64_of_i64, lemma_u64_bits_inv,
};
use super::{
    ContentHeaderPayload, Properties, props_args, flags_of, wf_props, enc_header, header_model,
    lemma_flags_bits, lemma_flags_decompose, opt_sstr_arg, opt_octet_arg, opt_ts_arg,
    opt_table_arg,
};

verus! {

/// Whether the i-th canonical property of `pp` is present.
pub open spec fn prop_present(pp: Properties, i: int) -> bool {
    if i == 0 {
        pp.content_type is Some
    } else if i == 1 {
        pp.content_encoding is Some
    } else if i == 2 {
        pp.headers is Some
    } else if i == 3 {
        pp.delivery_mode is Some
    } else if i == 4 {
        pp.priority is Some
    } else if i == 5 {
        pp.correlation_id is Some
    } else if i == 6 {
        pp.reply_to is Some
    } else if i == 7 {
        pp.expiration is Some
    } else if i == 8 {
        pp.message_id is Some
    } else if i == 9 {
        pp.timestamp is Some
    } else if i == 10 {
        pp.type_ is Some
    } else if i == 11 {
        pp.user_id is Some
    } else if i == 12 {
        pp.app_id is Some
    } else {
        false
    }
}

/// The argument chunk the i-th property of `pp` contributes.
pub open spec fn chunk_of(pp: Properties, i: int) -> Seq<ArgModel> {
    if i == 0 {
        opt_sstr_arg(pp.content_type)
    } else if i == 1 {
        opt_sstr_arg(pp.content_encoding)
    } else if i == 2 {
        opt_table_arg(pp.headers)
    } else if i == 3 {
        opt_octet_arg(pp.delivery_mode)
    } else if i == 4 {
        opt_octet_arg(pp.priority)
    } else if i == 5 {
        opt_sstr_arg(pp.correlation_id)
    } else if i == 6 {
        opt_sstr_arg(pp.reply_to)
    } else if i == 7 {
        opt_sstr_arg(pp.expiration)
    } else if i == 8 {
        opt_sstr_arg(pp.message_id)
    } else if i == 9 {
        opt_ts_arg(pp.timestamp)
    } else if i == 10 {
        opt_sstr_arg(pp.type_)
    } else if i == 11 {
        opt_sstr_arg(pp.user_id)
    } else if i == 12 {
        opt_sstr_arg(pp.app_id)
    } else {
        Seq::empty()
    }
}

/// The schema entry of the i-th property.
pub open spec fn prop_ty(i: int) -> ArgumentDecodingInfo {
    if i == 0 {
        ArgumentDecodingInfo::ShortString
    } else if i == 1 {
        ArgumentDecodingInfo::ShortString
    } else if i == 2 {
        ArgumentDecodingInfo::FieldTable
    } else if i == 3 {
        ArgumentDecodingInfo::Octet
    } else if i == 4 {
        ArgumentDecodingInfo::Octet
    } else if i == 5 {
        ArgumentDecodingInfo::ShortString
    } else if i == 6 {
        ArgumentDecodingInfo::ShortString
    } else if i == 7 {
        ArgumentDecodingInfo::ShortString
    } else if i == 8 {
        ArgumentDecodingInfo::ShortString
    } else if i == 9 {
        ArgumentDecodingInfo::LongLong
    } else if i == 10 {
        ArgumentDecodingInfo::ShortString
    } else if i == 11 {
        ArgumentDecodingInfo::ShortString
    } else if i == 12 {
        ArgumentDecodingInfo::ShortString
    } else {
        ArgumentDecodingInfo::Octet
    }
}

/// The flags-word mask of the i-th property.
pub open spec fn prop_mask(i: int) -> u16 {
    if i == 0 {
        0x8000
    } else if i == 1 {
        0x4000
    } else if i == 2 {
        0x2000
    } else if i == 3 {
        0x1000
    } else if i == 4 {
        0x0800
    } else if i == 5 {
        0x0400
    } else if i == 6 {
        0x0200
    } else if i == 7 {
        0x0100
    } else if i == 8 {
        0x0080
    } else if i == 9 {
        0x0040
    } else if i == 10 {
        0x0020
    } else if i == 11 {
        0x0010
    } else if i == 12 {
        0x0008
    } else {
        1
    }
}

/// The singleton (or empty) schema of the i-th property.
pub open spec fn prop_schema(pp: Properties, i: int) -> Seq<ArgumentDecodingInfo> {
    if prop_present(pp, i) {
        seq![prop_ty(i)]
    } else {
        Seq::empty()
    }
}

/// The singleton (or empty) schema the i-th flag bit announces.
pub open spec fn bit_schema(flags: u16, i: int) -> Seq<ArgumentDecodingInfo> {
    if (flags / prop_mask(i)) % 2 == 1 {
        seq![prop_ty(i)]
    } else {
        Seq::empty()
    }
}

/// The chunks of the first k properties, in order.
pub open spec fn props_args_upto(pp: Properties, k: int) -> Seq<ArgModel>
    decreases k,
{
    if k <= 0 {
        Seq::empty()
    } else {
        props_args_upto(pp, k - 1) + chunk_of(pp, k - 1)
    }
}

/// The chunks from the k-th property on, in order.
pub open spec fn props_args_from(pp: Properties, k: int) -> Seq<ArgModel>
    decreases 13 - k,
{
    if k >= 13 {
        Seq::empty()
    } else {
        chunk_of(pp, k) + props_args_from(pp, k + 1)
    }
}

/// The first thirteen chunks are the whole property list.
pub proof fn lemma_upto_is_all(pp: Properties)
    ensures
        props_args_upto(pp, 13) == props_args(pp),
{
    assert(props_args_upto(pp, 13) =~= props_args(pp)) by {
        reveal_with_fuel(props_args_upto, 14);
    }
}

/// The whole property argument list splits at any property boundary.
proof fn lemma_upto_from(pp: Properties, k: int)
    requires
        0 <= k <= 13,
    ensures
        props_args(pp) == props_args_upto(pp, k) + props_args_from(pp, k),
    decreases 13 - k,
{
    if k == 13 {
        lemma_upto_is_all(pp);
        assert(props_args_upto(pp, 13) + props_args_from(pp, 13) =~= props_args_upto(pp, 13));
    } else {
        lemma_upto_from(pp, k + 1);
        assert(props_args_upto(pp, k + 1) == props_args_upto(pp, k) + chunk_of(pp, k));
        assert((props_args_upto(pp, k) + chunk_of(pp, k)) + props_args_from(pp, k + 1)
            =~= props_args_upto(pp, k) + (chunk_of(pp, k) + props_args_from(pp, k + 1)));
    }
}

/// A prefix made of two parts puts the second right after the first.
proof fn lemma_prefix_split(b: Seq<u8>, pos: int, x: Seq<u8>, y: Seq<u8>)
    requires
        prefix_at(b, pos, x + y),
    ensures
        prefix_at(b, pos, x),
        prefix_at(b, pos + x.len(), y),
{
    let ch = b.subrange(pos, pos + (x + y).len() as int);
    assert(b.subrange(pos, pos + x.len() as int) =~= x) by {
        assert(forall|i: int| 0 <= i < x.len() ==> #[trigger] x[i] == ch[i]);
        assert(forall|i: int| 0 <= i < x.len() ==> #[trigger] ch[i] == b[pos + i]);
    }
    assert(b.subrange(pos + x.len(), pos + x.len() + y.len() as int) =~= y) by {
        assert(forall|i: int| 0 <= i < y.len() ==> #[trigger] y[i] == ch[x.len() + i]);
        assert(forall|i: int| 0 <= i < y.len() ==> #[trigger] ch[x.len() + i] == b[pos + x.len()
            + i]);
    }
}

/// Each chunk is well formed and matches its singleton schema.
#[verifier::rlimit(100)]
#[verifier::spinoff_prover]
proof fn lemma_chunk_shape(pp: Properties, i: int)
    requires
        wf_props(pp),
        0 <= i < 13,
    ensures
        args_match(chunk_of(pp, i), prop_schema(pp, i)),
        wf_args(chunk_of(pp, i)),
{
    lemma_upto_from(pp, i);
    assert(props_args_from(pp, i) == chunk_of(pp, i) + props_args_from(pp, i + 1));
    let u = props_args_upto(pp, i);
    assert(wf_args(chunk_of(pp, i))) by {
        assert(forall|j: int| 0 <= j < chunk_of(pp, i).len() ==> #[trigger] chunk_of(pp, i)[j]
            == props_args(pp)[u.len() + j]);
    }
}

/// Where the j-th recorded chunk ends: at the next recorded start, or at the
/// cursor for the last one.
spec fn trace_end(trace: Seq<(int, Seq<ArgModel>)>, cur: int, j: int) -> int {
    if j + 1 < trace.len() {
        trace[j + 1].0
    } else {
        cur
    }
}

/// Walking the decoded chunks: with some properties already read at the
/// recorded positions, the next property's chunk sits at the cursor and
/// everything read so far is the corresponding chunk of the record.
#[verifier::rlimit(100)]
proof fn lemma_props_walk(b: Seq<u8>, pp: Properties, trace: Seq<(int, Seq<ArgModel>)>, cur: int)
    requires
        wf_props(pp),
        prefix_at(b, 14, enc_args(props_args(pp))),
        trace.len() <= 13,
        cur <= b.len(),
        if trace.len() == 0 {
            cur == 14
        } else {
            trace[0].0 == 14
        },
        forall|j: int| 0 <= j < trace.len() ==> #[trigger] trace[j].0 <= trace_end(trace, cur, j),
        forall|j: int| 0 <= j < trace.len() ==> b.subrange(
            #[trigger] trace[j].0,
            trace_end(trace, cur, j),
        ) == enc_args(trace[j].1),
        forall|j: int| 0 <= j < trace.len() ==> #[trigger] args_match(
            trace[j].1,
            prop_schema(pp, j),
        ),
        forall|j: int| 0 <= j < trace.len() ==> #[trigger] wf_args(trace[j].1),
    ensures
        cur == 14 + enc_args(props_args_upto(pp, trace.len() as int)).len(),
        forall|j: int| 0 <= j < trace.len() ==> #[trigger] trace[j].1 == chunk_of(pp, j),
        trace.len() < 13 ==> prefix_at(b, cur, enc_args(chunk_of(pp, trace.len() as int))),
    decreases trace.len(),
{
    let ll = trace.len() as int;
    if ll == 0 {
        assert(enc_args(props_args_upto(pp, 0)) =~= Seq::<u8>::empty());
        lemma_upto_from(pp, 0);
        lemma_enc_args_concat(props_args_upto(pp, 0), props_args_from(pp, 0));
        assert(props_args_from(pp, 0) == chunk_of(pp, 0) + props_args_from(pp, 1));
        lemma_enc_args_concat(chunk_of(pp, 0), props_args_from(pp, 1));
        assert(enc_args(props_args(pp)) =~= enc_args(chunk_of(pp, 0)) + (enc_args(
            props_args_from(pp, 1),
        )));
        lemma_prefix_split(b, 14, enc_args(chunk_of(pp, 0)), enc_args(props_args_from(pp, 1)));
    } else {
        let sub = trace.subrange(0, ll - 1);
        let last = trace[ll - 1];
        let scur = last.0;
        assert(forall|j: int| 0 <= j < sub.len() ==> #[trigger] sub[j] == trace[j]);
        assert(forall|j: int| 0 <= j < sub.len() ==> #[trigger] trace_end(sub, scur, j)
            == trace_end(trace, cur, j));
        lemma_props_walk(b, pp, sub, scur);
        assert(prefix_at(b, scur, enc_args(chunk_of(pp, ll - 1))));
        let mk = last.1;
        let ck = chunk_of(pp, ll - 1);
        let nn = b.len() as int;
        assert(trace_end(trace, cur, ll - 1) == cur);
        assert(b.subrange(scur, cur) == enc_args(mk));
        assert(scur + enc_args(ck).len() <= nn);
        lemma_subrange_concat(b, scur, cur, nn);
        lemma_subrange_concat(b, scur, scur + enc_args(ck).len(), nn);
        assert(enc_args(mk) + b.subrange(cur, nn) == enc_args(ck) + b.subrange(
            scur + enc_args(ck).len(),
            nn,
        ));
        lemma_chunk_shape(pp, ll - 1);
        lemma_args_prefix(
            mk,
            ck,
            prop_schema(pp, ll - 1),
            b.subrange(cur, nn),
            b.subrange(scur + enc_args(ck).len(), nn),
        );
        assert(mk == ck);
        assert(cur == scur + enc_args(ck).len());
        assert(props_args_upto(pp, ll) == props_args_upto(pp, ll - 1) + ck);
        lemma_enc_args_concat(props_args_upto(pp, ll - 1), ck);
        if ll < 13 {
            lemma_upto_from(pp, ll);
            lemma_enc_args_concat(props_args_upto(pp, ll), props_args_from(pp, ll));
            assert(props_args_from(pp, ll) == chunk_of(pp, ll) + props_args_from(pp, ll + 1));
            lemma_enc_args_concat(chunk_of(pp, ll), props_args_from(pp, ll + 1));
            assert(enc_args(props_args(pp)) =~= enc_args(props_args_upto(pp, ll)) + (enc_args(
                chunk_of(pp, ll),
            ) + enc_args(props_args_from(pp, ll + 1))));
            lemma_prefix_split(
                b,
                14,
                enc_args(props_args_upto(pp, ll)),
                enc_args(chunk_of(pp, ll)) + enc_args(props_args_from(pp, ll + 1)),
            );
            lemma_prefix_split(
                b,
                14 + enc_args(props_args_upto(pp, ll)).len() as int,
                enc_args(chunk_of(pp, ll)),
                enc_args(props_args_from(pp, ll + 1)),
            );
        }
        assert(forall|j: int| 0 <= j < ll ==> #[trigger] trace[j].1 == chunk_of(pp, j)) by {
            assert(forall|j: int| 0 <= j < ll - 1 ==> #[trigger] trace[j].1 == sub[j].1);
        }
    }
}

/// Under the hypothesis that a well-formed header encoding fills the
/// payload: the fixed words denote its fields and the property list follows.
proof fn lemma_header_chunks(b: Seq<u8>, cls: u16, size: u64, pp: Properties)
    requires
        prefix_at(b, 0, enc_header(cls, size, pp)),
    ensures
        b.len() >= 14,
        b.subrange(0, 2) == be16(cls),
        b.subrange(2, 4) == be16(0),
        b.subrange(4, 12) == be64(size),
        b.subrange(12, 14) == be16(flags_of(pp)),
        prefix_at(b, 14, enc_args(props_args(pp))),
{
    let e = enc_header(cls, size, pp);
    let aa = enc_args(props_args(pp));
    let h = be16(cls) + be16(0) + be64(size) + be16(flags_of(pp));
    assert(e == h + aa);
    assert(h.len() == 14);
    assert(b.subrange(0, e.len() as int) == e);
    assert(b.subrange(0, 2) =~= be16(cls)) by {
        assert(b[0] == e[0] && b[1] == e[1]);
        assert(e[0] == h[0] && e[1] == h[1]);
        assert(h[0] == be16(cls)[0] && h[1] == be16(cls)[1]);
    }
    assert(b.subrange(2, 4) =~= be16(0u16)) by {
        assert(b[2] == e[2] && b[3] == e[3]);
        assert(e[2] == h[2] && e[3] == h[3]);
        assert(h[2] == be16(0u16)[0] && h[3] == be16(0u16)[1]);
    }
    assert(b.subrange(4, 12) =~= be64(size)) by {
        assert(forall|i: int| 0 <= i < 8 ==> #[trigger] be64(size)[i] == h[4 + i]);
        assert(forall|i: int| 0 <= i < 8 ==> #[trigger] h[4 + i] == e[4 + i]);
        assert(forall|i: int| 0 <= i < 8 ==> #[trigger] e[4 + i] == b[4 + i]);
        assert(forall|i: int| 0 <= i < 8 ==> #[trigger] b.subrange(4, 12)[i] == b[4 + i]);
    }
    assert(b.subrange(12, 14) =~= be16(flags_of(pp))) by {
        assert(b[12] == e[12] && b[13] == e[13]);
        assert(e[12] == h[12] && e[13] == h[13]);
        assert(h[12] == be16(flags_of(pp))[0] && h[13] == be16(flags_of(pp))[1]);
    }
    assert(b.subrange(14, 14 + aa.len() as int) =~= aa) by {
        assert(forall|i: int| 0 <= i < aa.len() ==> #[trigger] aa[i] == e[14 + i]);
        assert(forall|i: int| 0 <= i < aa.len() ==> #[trigger] b.subrange(
            14,
            14 + aa.len() as int,
        )[i] == b[14 + i]);
        assert(forall|i: int| 0 <= i < aa.len() ==> #[trigger] b[14 + i] == e[14 + i]);
    }
}

/// What the fixed words say under the hypothesis that a well-formed header
/// encoding fills the payload.
#[verifier::rlimit(100)]
#[verifier::spinoff_prover]
proof fn lemma_header_fixed(b: Seq<u8>, flags: u16, cls: u16, size: u64, pp: Properties)
    requires
        wf_props(pp),
        b == enc_header(cls, size, pp),
        b.len() >= 14,
        be16(flags) == b.subrange(12, 14),
    ensures
        flags == flags_of(pp),
        prefix_at(b, 14, enc_args(props_args(pp))),
        b.subrange(0, 2) == be16(cls),
        b.subrange(2, 4) == be16(0),
        b.subrange(4, 12) == be64(size),
        b.len() == 14 + enc_args(props_args(pp)).len(),
        forall|j: int| 0 <= j < 13 ==> bit_schema(flags, j) == #[trigger] prop_schema(pp, j),
{
    assert(b.subrange(0, b.len() as int) =~= b);
    assert(prefix_at(b, 0, enc_header(cls, size, pp)));
    lemma_header_chunks(b, cls, size, pp);
    lemma_be16_inj(flags, flags_of(pp));
    lemma_flags_bits(pp);
    assert(forall|j: int| 0 <= j < 13 ==> bit_schema(flags, j) == #[trigger] prop_schema(pp, j));
}

/// No well-formed header encoding fills the payload when the property that
/// the k-th set flag bit announces cannot be decoded at the cursor.
#[verifier::rlimit(100)]
#[verifier::spinoff_prover]
proof fn no_header_here(b: Seq<u8>, flags: u16, k: int, trace: Seq<(int, Seq<ArgModel>)>, cur: int)
    requires
        b.len() >= 14,
        be16(flags) == b.subrange(12, 14),
        0 <= k < 13,
        trace.len() == k,
        14 <= cur <= b.len(),
        if k == 0 {
            cur == 14
        } else {
            trace[0].0 == 14
        },
        forall|j: int| 0 <= j < k ==> #[trigger] trace[j].0 <= trace_end(trace, cur, j),
        forall|j: int| 0 <= j < k ==> b.subrange(
            #[trigger] trace[j].0,
            trace_end(trace, cur, j),
        ) == enc_args(trace[j].1),
        forall|j: int| 0 <= j < k ==> args_match(#[trigger] trace[j].1, bit_schema(flags, j)),
        forall|j: int| 0 <= j < k ==> wf_args(#[trigger] trace[j].1),
        (flags / prop_mask(k)) % 2 == 1,
        forall|ms: Seq<ArgModel>| #![trigger enc_args(ms)]
            !(wf_args(ms) && args_match(ms, seq![prop_ty(k)]) && prefix_at(b, cur, enc_args(ms))),
    ensures
        forall|cls: u16, size: u64, pp: Properties| #![trigger enc_header(cls, size, pp)]
            !(wf_props(pp) && b == enc_header(cls, size, pp)),
{
    assert forall|cls: u16, size: u64, pp: Properties| #![trigger enc_header(cls, size, pp)]
        !(wf_props(pp) && b == enc_header(cls, size, pp)) by {
        if wf_props(pp) && b == enc_header(cls, size, pp) {
            lemma_header_fixed(b, flags, cls, size, pp);
            lemma_props_walk(b, pp, trace, cur);
            lemma_chunk_shape(pp, k);
            assert(prop_present(pp, k));
            assert(prop_schema(pp, k) == seq![prop_ty(k)]);
            assert(prefix_at(b, cur, enc_args(chunk_of(pp, k))));
            assert(false);
        }
    }
}

/// What the recorded chunks say once all thirteen properties are read: the
/// cursor stands at the end of the whole encoding and every chunk is the
/// record's chunk.
#[verifier::rlimit(100)]
#[verifier::spinoff_prover]
proof fn lemma_header_decoded(
    b: Seq<u8>,
    flags: u16,
    trace: Seq<(int, Seq<ArgModel>)>,
    cur: int,
)
    requires
        b.len() >= 14,
        be16(flags) == b.subrange(12, 14),
        trace.len() == 13,
        14 <= cur <= b.len(),
        trace[0].0 == 14,
        forall|j: int| 0 <= j < 13 ==> #[trigger] trace[j].0 <= trace_end(trace, cur, j),
        forall|j: int| 0 <= j < 13 ==> b.subrange(
            #[trigger] trace[j].0,
            trace_end(trace, cur, j),
        ) == enc_args(trace[j].1),
        forall|j: int| 0 <= j < 13 ==> args_match(#[trigger] trace[j].1, bit_schema(flags, j)),
        forall|j: int| 0 <= j < 13 ==> wf_args(#[trigger] trace[j].1),
    ensures
        forall|cls: u16, size: u64, pp: Properties| #![trigger enc_header(cls, size, pp)]
            (wf_props(pp) && b == enc_header(cls, size, pp)) ==> (cur == b.len() && flags
                == flags_of(pp) && b.subrange(0, 2) == be16(cls) && b.subrange(4, 12) == be64(size)
                && (forall|j: int| 0 <= j < 13 ==> #[trigger] trace[j].1 == chunk_of(pp, j))),
{
    assert forall|cls: u16, size: u64, pp: Properties| #![trigger enc_header(cls, size, pp)]
        (wf_props(pp) && b == enc_header(cls, size, pp)) implies (cur == b.len() && flags
        == flags_of(pp) && b.subrange(0, 2) == be16(cls) && b.subrange(4, 12) == be64(size) && (
    forall|j: int| 0 <= j < 13 ==> #[trigger] trace[j].1 == chunk_of(pp, j))) by {
        lemma_header_fixed(b, flags, cls, size, pp);
        lemma_props_walk(b, pp, trace, cur);
        lemma_upto_is_all(pp);
    }
}

/// Recording one more property chunk keeps the trace well formed.
#[verifier::rlimit(100)]
#[verifier::spinoff_prover]
proof fn lemma_trace_push(
    b: Seq<u8>,
    flags: u16,
    t0: Seq<(int, Seq<ArgModel>)>,
    s: int,
    m: Seq<ArgModel>,
    cur1: int,
    k: int,
)
    requires
        0 <= k < 13,
        t0.len() == k,
        if k == 0 {
            s == 14
        } else {
            t0[0].0 == 14
        },
        14 <= s <= cur1 <= b.len(),
        forall|j: int| 0 <= j < k ==> #[trigger] t0[j].0 <= trace_end(t0, s, j),
        forall|j: int| 0 <= j < k ==> b.subrange(#[trigger] t0[j].0, trace_end(t0, s, j))
            == enc_args(t0[j].1),
        forall|j: int| 0 <= j < k ==> args_match(#[trigger] t0[j].1, bit_schema(flags, j)),
        forall|j: int| 0 <= j < k ==> wf_args(#[trigger] t0[j].1),
        b.subrange(s, cur1) == enc_args(m),
        args_match(m, bit_schema(flags, k)),
        wf_args(m),
    ensures
        ({
            let t1 = t0.push((s, m));
            &&& t1.len() == k + 1
            &&& t1[0].0 == 14
            &&& forall|j: int| 0 <= j < k + 1 ==> #[trigger] t1[j].0 <= trace_end(t1, cur1, j)
            &&& forall|j: int| 0 <= j < k + 1 ==> b.subrange(
                #[trigger] t1[j].0,
                trace_end(t1, cur1, j),
            ) == enc_args(t1[j].1)
            &&& forall|j: int| 0 <= j < k + 1 ==> args_match(
                #[trigger] t1[j].1,
                bit_schema(flags, j),
            )
            &&& forall|j: int| 0 <= j < k + 1 ==> wf_args(#[trigger] t1[j].1)
        }),
{
    let t1 = t0.push((s, m));
    assert(forall|j: int| 0 <= j < k ==> #[trigger] t1[j] == t0[j]);
    assert(t1[k] == (s, m));
    assert(forall|j: int| 0 <= j < k - 1 ==> #[trigger] trace_end(t1, cur1, j) == trace_end(
        t0,
        s,
        j,
    ));
    if k > 0 {
        assert(trace_end(t1, cur1, k - 1) == s);
        assert(trace_end(t0, s, k - 1) == s);
    }
    assert(trace_end(t1, cur1, k) == cur1);
}

/// A one-entry schema.
fn one_ty(t: ArgumentDecodingInfo) -> (r: Vec<ArgumentDecodingInfo>)
    ensures
        r@ == seq![t],
{
    let mut v: Vec<ArgumentDecodingInfo> = Vec::new();
    v.push(t);
    proof {
        assert(v@ =~= seq![t]);
    }
    v
}

/// Read one optional short-string property.
fn read_opt_sstr(b: &Vec<u8>, pos: usize, present: bool) -> (r: Result<
    (Option<AmqpString>, usize),
    DecodeError,
>)
    requires
        pos <= b@.len(),
    ensures
        r matches Ok(p) ==> pos <= p.1 <= b@.len() && (p.0 is Some <==> present) && b@.subrange(
            pos as int,
            p.1 as int,
        ) == enc_args(opt_sstr_arg(p.0)) && wf_args(opt_sstr_arg(p.0)) && args_match(
            opt_sstr_arg(p.0),
            if present {
                seq![ArgumentDecodingInfo::ShortString]
            } else {
                Seq::empty()
            },
        ),
        r matches Err(e) ==> field_error(e),
        !present ==> (r matches Ok(p) && p.0 is None && p.1 == pos),
        present && r is Err ==> forall|ms: Seq<ArgModel>| #![trigger enc_args(ms)]
            !(wf_args(ms) && args_match(ms, seq![ArgumentDecodingInfo::ShortString]) && prefix_at(
                b@,
                pos as int,
                enc_args(ms),
            )),
{
    if !present {
        proof {
            assert(b@.subrange(pos as int, pos as int) =~= Seq::<u8>::empty());
            assert(enc_args(opt_sstr_arg(None::<AmqpString>)) =~= Seq::<u8>::empty());
        }
        return Ok((None, pos));
    }
    let t1 = one_ty(ArgumentDecodingInfo::ShortString);
    match decode_args(&t1, b, pos) {
        Err(e) => {
            proof {
                assert forall|ms: Seq<ArgModel>| #![trigger enc_args(ms)]
                    !(wf_args(ms) && args_match(ms, seq![ArgumentDecodingInfo::ShortString]) && prefix_at(
                        b@,
                        pos as int,
                        enc_args(ms),
                    )) by {
                    if wf_args(ms) && args_match(ms, seq![ArgumentDecodingInfo::ShortString]) && prefix_at(
                        b@,
                        pos as int,
                        enc_args(ms),
                    ) {
                        assert(false);
                    }
                }
            }
            Err(e)
        },
        Ok((ak, np)) => {
            proof {
                lemma_args_model_index(ak.0@);
            }
            let mut av = ak.0;
            match take_short_string(&mut av) {
                None => {
                    proof {
                        assert(false);
                    }
                    Err(DecodeError::PayloadTruncated)
                },
                Some(x) => {
                    proof {
                        assert(args_model(ak.0@) =~= seq![ArgModel::ShortString(x@)]);
                        assert(opt_sstr_arg(Some(x)) =~= seq![ArgModel::ShortString(x@)]);
                    }
                    Ok((Some(x), np))
                },
            }
        },
    }
}

/// Read one optional octet property.
fn read_opt_octet(b: &Vec<u8>, pos: usize, present: bool) -> (r: Result<
    (Option<u8>, usize),
    DecodeError,
>)
    requires
        pos <= b@.len(),
    ensures
        r matches Ok(p) ==> pos <= p.1 <= b@.len() && (p.0 is Some <==> present) && b@.subrange(
            pos as int,
            p.1 as int,
        ) == enc_args(opt_octet_arg(p.0)) && wf_args(opt_octet_arg(p.0)) && args_match(
            opt_octet_arg(p.0),
            if present {
                seq![ArgumentDecodingInfo::Octet]
            } else {
                Seq::empty()
            },
        ),
        r matches Err(e) ==> field_error(e),
        !present ==> (r matches Ok(p) && p.0 is None && p.1 == pos),
        present && r is Err ==> forall|ms: Seq<ArgModel>| #![trigger enc_args(ms)]
            !(wf_args(ms) && args_match(ms, seq![ArgumentDecodingInfo::Octet]) && prefix_at(
                b@,
                pos as int,
                enc_args(ms),
            )),
{
    if !present {
        proof {
            assert(b@.subrange(pos as int, pos as int) =~= Seq::<u8>::empty());
            assert(enc_args(opt_octet_arg(None::<u8>)) =~= Seq::<u8>::empty());
        }
        return Ok((None, pos));
    }
    let t1 = one_ty(ArgumentDecodingInfo::Octet);
    match decode_args(&t1, b, pos) {
        Err(e) => {
            proof {
                assert forall|ms: Seq<ArgModel>| #![trigger enc_args(ms)]
                    !(wf_args(ms) && args_match(ms, seq![ArgumentDecodingInfo::Octet]) && prefix_at(
                        b@,
                        pos as int,
                        enc_args(ms),
                    )) by {
                    if wf_args(ms) && args_match(ms, seq![ArgumentDecodingInfo::Octet]) && prefix_at(
                        b@,
                        pos as int,
                        enc_args(ms),
                    ) {
                        assert(false);
                    }
                }
            }
            Err(e)
        },
        Ok((ak, np)) => {
            proof {
                lemma_args_model_index(ak.0@);
            }
            let mut av = ak.0;
            match take_octet(&mut av) {
                None => {
                    proof {
                        assert(false);
                    }
                    Err(DecodeError::PayloadTruncated)
                },
                Some(x) => {
                    proof {
                        assert(args_model(ak.0@) =~= seq![ArgModel::Octet(x)]);
                        assert(opt_octet_arg(Some(x)) =~= seq![ArgModel::Octet(x)]);
                    }
                    Ok((Some(x), np))
                },
            }
        },
    }
}

/// Read one optional timestamp property.
fn read_opt_ts(b: &Vec<u8>, pos: usize, present: bool) -> (r: Result<
    (Option<i64>, usize),
    DecodeError,
>)
    requires
        pos <= b@.len(),
    ensures
        r matches Ok(p) ==> pos <= p.1 <= b@.len() && (p.0 is Some <==> present) && b@.subrange(
            pos as int,
            p.1 as int,
        ) == enc_args(opt_ts_arg(p.0)) && wf_args(opt_ts_arg(p.0)) && args_match(
            opt_ts_arg(p.0),
            if present {
                seq![ArgumentDecodingInfo::LongLong]
            } else {
                Seq::empty()
            },
        ),
        r matches Err(e) ==> field_error(e),
        !present ==> (r matches Ok(p) && p.0 is None && p.1 == pos),
        present && r is Err ==> forall|ms: Seq<ArgModel>| #![trigger enc_args(ms)]
            !(wf_args(ms) && args_match(ms, seq![ArgumentDecodingInfo::LongLong]) && prefix_at(
                b@,
                pos as int,
                enc_args(ms),
            )),
{
    if !present {
        proof {
            assert(b@.subrange(pos as int, pos as int) =~= Seq::<u8>::empty());
            assert(enc_args(opt_ts_arg(None::<i64>)) =~= Seq::<u8>::empty());
        }
        return Ok((None, pos));
    }
    let t1 = one_ty(ArgumentDecodingInfo::LongLong);
    match decode_args(&t1, b, pos) {
        Err(e) => {
            proof {
                assert forall|ms: Seq<ArgModel>| #![trigger enc_args(ms)]
                    !(wf_args(ms) && args_match(ms, seq![ArgumentDecodingInfo::LongLong]) && prefix_at(
                        b@,
                        pos as int,
                        enc_args(ms),
                    )) by {
                    if wf_args(ms) && args_match(ms, seq![ArgumentDecodingInfo::LongLong]) && prefix_at(
                        b@,
                        pos as int,
                        enc_args(ms),
                    ) {
                        assert(false);
                    }
                }
            }
            Err(e)
        },
        Ok((ak, np)) => {
            proof {
                lemma_args_model_index(ak.0@);
            }
            let mut av = ak.0;
            match take_longlong(&mut av) {
                None => {
                    proof {
                        assert(false);
                    }
                    Err(DecodeError::PayloadTruncated)
                },
                Some(x) => {
                    let v = from_u64_bits(x);
                    proof {
                        assert(args_model(ak.0@) =~= seq![ArgModel::LongLong(x)]);
                        lemma_u64_bits_inv(x);
                        assert(opt_ts_arg(Some(v)) =~= seq![ArgModel::LongLong(x)]);
                    }
                    Ok((Some(v), np))
                },
            }
        },
    }
}

/// Read one optional field-table property.
fn read_opt_table(b: &Vec<u8>, pos: usize, present: bool) -> (r: Result<
    (Option<FieldTable>, usize),
    DecodeError,
>)
    requires
        pos <= b@.len(),
    ensures
        r matches Ok(p) ==> pos <= p.1 <= b@.len() && (p.0 is Some <==> present) && b@.subrange(
            pos as int,
            p.1 as int,
        ) == enc_args(opt_table_arg(p.0)) && wf_args(opt_table_arg(p.0)) && args_match(
            opt_table_arg(p.0),
            if present {
                seq![ArgumentDecodingInfo::FieldTable]
            } else {
                Seq::empty()
            },
        ),
        r matches Err(e) ==> field_error(e),
        !present ==> (r matches Ok(p) && p.0 is None && p.1 == pos),
        present && r is Err ==> forall|ms: Seq<ArgModel>| #![trigger enc_args(ms)]
            !(wf_args(ms) && args_match(ms, seq![ArgumentDecodingInfo::FieldTable]) && prefix_at(
                b@,
                pos as int,
                enc_args(ms),
            )),
{
    if !present {
        proof {
            assert(b@.subrange(pos as int, pos as int) =~= Seq::<u8>::empty());
            assert(enc_args(opt_table_arg(None::<FieldTable>)) =~= Seq::<u8>::empty());
        }
        return Ok((None, pos));
    }
    let t1 = one_ty(ArgumentDecodingInfo::FieldTable);
    match decode_args(&t1, b, pos) {
        Err(e) => {
            proof {
                assert forall|ms: Seq<ArgModel>| #![trigger enc_args(ms)]
                    !(wf_args(ms) && args_match(ms, seq![ArgumentDecodingInfo::FieldTable]) && prefix_at(
                        b@,
                        pos as int,
                        enc_args(ms),
                    )) by {
                    if wf_args(ms) && args_match(ms, seq![ArgumentDecodingInfo::FieldTable]) && prefix_at(
                        b@,
                        pos as int,
                        enc_args(ms),
                    ) {
                        assert(false);
                    }
                }
            }
            Err(e)
        },
        Ok((ak, np)) => {
            proof {
                lemma_args_model_index(ak.0@);
            }
            let mut av = ak.0;
            match take_table(&mut av) {
                None => {
                    proof {
                        assert(false);
                    }
                    Err(DecodeError::PayloadTruncated)
                },
                Some(x) => {
                    proof {
                        assert(args_model(ak.0@) =~= seq![ArgModel::FieldTable(table_model(x.0@))]);
                        assert(opt_table_arg(Some(x)) =~= seq![ArgModel::FieldTable(table_model(x.0@))]);
                    }
                    Ok((Some(x), np))
                },
            }
        },
    }
}

proof fn lemma_wf_args_concat(x: Seq<ArgModel>, y: Seq<ArgModel>)
    requires
        wf_args(x),
        wf_args(y),
    ensures
        wf_args(x + y),
{
    assert(forall|i: int| 0 <= i < (x + y).len() ==> wf_arg(#[trigger] (x + y)[i])) by {
        assert(forall|i: int| 0 <= i < x.len() ==> #[trigger] (x + y)[i] == x[i]);
        assert(forall|i: int| x.len() <= i < x.len() + y.len() ==> #[trigger] (x + y)[i] == y[i
            - x.len()]);
    }
}

/// No well-formed header encoding fits in fewer than fourteen bytes.
proof fn no_header_short(b: Seq<u8>)
    requires
        b.len() < 14,
    ensures
        forall|cls: u16, size: u64, pp: Properties| #![trigger enc_header(cls, size, pp)]
            !(wf_props(pp) && b == enc_header(cls, size, pp)),
{
    assert forall|cls: u16, size: u64, pp: Properties| #![trigger enc_header(cls, size, pp)]
        !(wf_props(pp) && b == enc_header(cls, size, pp)) by {
        if wf_props(pp) && b == enc_header(cls, size, pp) {
            assert(b.subrange(0, b.len() as int) =~= b);
            lemma_header_chunks(b, cls, size, pp);
            assert(false);
        }
    }
}

/// No well-formed header encoding carries a nonzero weight word.
proof fn no_header_weight(b: Seq<u8>, weight: u16)
    requires
        b.len() >= 14,
        be16(weight) == b.subrange(2, 4),
        weight != 0,
    ensures
        forall|cls: u16, size: u64, pp: Properties| #![trigger enc_header(cls, size, pp)]
            !(wf_props(pp) && b == enc_header(cls, size, pp)),
{
    assert forall|cls: u16, size: u64, pp: Properties| #![trigger enc_header(cls, size, pp)]
        !(wf_props(pp) && b == enc_header(cls, size, pp)) by {
        if wf_props(pp) && b == enc_header(cls, size, pp) {
            assert(b.subrange(0, b.len() as int) =~= b);
            lemma_header_chunks(b, cls, size, pp);
            lemma_be16_inj(weight, 0);
            assert(false);
        }
    }
}

/// No well-formed header encoding carries stray low flag bits.
proof fn no_header_low_bits(b: Seq<u8>, flags: u16)
    requires
        b.len() >= 14,
        be16(flags) == b.subrange(12, 14),
        flags % 8 != 1,
    ensures
        forall|cls: u16, size: u64, pp: Properties| #![trigger enc_header(cls, size, pp)]
            !(wf_props(pp) && b == enc_header(cls, size, pp)),
{
    assert forall|cls: u16, size: u64, pp: Properties| #![trigger enc_header(cls, size, pp)]
        !(wf_props(pp) && b == enc_header(cls, size, pp)) by {
        if wf_props(pp) && b == enc_header(cls, size, pp) {
            assert(b.subrange(0, b.len() as int) =~= b);
            lemma_header_chunks(b, cls, size, pp);
            lemma_be16_inj(flags, flags_of(pp));
            lemma_flags_bits(pp);
            assert(false);
        }
    }
}

/// A flags word with clean low bits whose presence bits match the record is
/// the record's flags word.
#[verifier::rlimit(100)]
#[verifier::spinoff_prover]
proof fn lemma_flags_sound(flags: u16, pp: Properties)
    requires
        flags % 8 == 1,
        (pp.content_type is Some) == ((flags / 0x8000) % 2 == 1),
        (pp.content_encoding is Some) == ((flags / 0x4000) % 2 == 1),
        (pp.headers is Some) == ((flags / 0x2000) % 2 == 1),
        (pp.delivery_mode is Some) == ((flags / 0x1000) % 2 == 1),
        (pp.priority is Some) == ((flags / 0x0800) % 2 == 1),
        (pp.correlation_id is Some) == ((flags / 0x0400) % 2 == 1),
        (pp.reply_to is Some) == ((flags / 0x0200) % 2 == 1),
        (pp.expiration is Some) == ((flags / 0x0100) % 2 == 1),
        (pp.message_id is Some) == ((flags / 0x0080) % 2 == 1),
        (pp.timestamp is Some) == ((flags / 0x0040) % 2 == 1),
        (pp.type_ is Some) == ((flags / 0x0020) % 2 == 1),
        (pp.user_id is Some) == ((flags / 0x0010) % 2 == 1),
        (pp.app_id is Some) == ((flags / 0x0008) % 2 == 1),
    ensures
        flags == flags_of(pp),
{
    let y1: int = if pp.content_type is Some { 0x8000 } else { 0 };
    let y2: int = if pp.content_encoding is Some { 0x4000 } else { 0 };
    let y3: int = if pp.headers is Some { 0x2000 } else { 0 };
    let y4: int = if pp.delivery_mode is Some { 0x1000 } else { 0 };
    let y5: int = if pp.priority is Some { 0x0800 } else { 0 };
    let y6: int = if pp.correlation_id is Some { 0x0400 } else { 0 };
    let y7: int = if pp.reply_to is Some { 0x0200 } else { 0 };
    let y8: int = if pp.expiration is Some { 0x0100 } else { 0 };
    let y9: int = if pp.message_id is Some { 0x0080 } else { 0 };
    let y10: int = if pp.timestamp is Some { 0x0040 } else { 0 };
    let y11: int = if pp.type_ is Some { 0x0020 } else { 0 };
    let y12: int = if pp.user_id is Some { 0x0010 } else { 0 };
    let y13: int = if pp.app_id is Some { 0x0008 } else { 0 };
    assert(y1 == (if (flags / 0x8000) % 2 == 1 { 0x8000 as int } else { 0 }));
    assert(y2 == (if (flags / 0x4000) % 2 == 1 { 0x4000 as int } else { 0 }));
    assert(y3 == (if (flags / 0x2000) % 2 == 1 { 0x2000 as int } else { 0 }));
    assert(y4 == (if (flags / 0x1000) % 2 == 1 { 0x1000 as int } else { 0 }));
    assert(y5 == (if (flags / 0x0800) % 2 == 1 { 0x0800 as int } else { 0 }));
    assert(y6 == (if (flags / 0x0400) % 2 == 1 { 0x0400 as int } else { 0 }));
    assert(y7 == (if (flags / 0x0200) % 2 == 1 { 0x0200 as int } else { 0 }));
    assert(y8 == (if (flags / 0x0100) % 2 == 1 { 0x0100 as int } else { 0 }));
    assert(y9 == (if (flags / 0x0080) % 2 == 1 { 0x0080 as int } else { 0 }));
    assert(y10 == (if (flags / 0x0040) % 2 == 1 { 0x0040 as int } else { 0 }));
    assert(y11 == (if (flags / 0x0020) % 2 == 1 { 0x0020 as int } else { 0 }));
    assert(y12 == (if (flags / 0x0010) % 2 == 1 { 0x0010 as int } else { 0 }));
    assert(y13 == (if (flags / 0x0008) % 2 == 1 { 0x0008 as int } else { 0 }));
    lemma_flags_decompose(flags);
    assert(flags as int == y1 + y2 + y3 + y4 + y5 + y6 + y7 + y8 + y9 + y10 + y11 + y12 + y13 + 1);
    assert(flags_of(pp) as int == y1 + y2 + y3 + y4 + y5 + y6 + y7 + y8 + y9 + y10 + y11 + y12 + y13 + 1);
}

/// The recorded chunks, laid end to end from the property list's start,
/// are exactly the encoding of the record's property list.
#[verifier::rlimit(100)]
#[verifier::spinoff_prover]
proof fn lemma_props_bytes_sound(
    b: Seq<u8>,
    trace: Seq<(int, Seq<ArgModel>)>,
    cur: int,
    pp: Properties,
)
    requires
        trace.len() == 13,
        trace[0].0 == 14,
        14 <= cur <= b.len(),
        forall|j: int| 0 <= j < 13 ==> #[trigger] trace[j].0 <= trace_end(trace, cur, j),
        forall|j: int| 0 <= j < 13 ==> b.subrange(
            #[trigger] trace[j].0,
            trace_end(trace, cur, j),
        ) == enc_args(trace[j].1),
        forall|j: int| 0 <= j < 13 ==> wf_args(#[trigger] trace[j].1),
        forall|j: int| 0 <= j < 13 ==> #[trigger] trace[j].1 == chunk_of(pp, j),
    ensures
        b.subrange(14, cur) == enc_args(props_args(pp)),
        wf_props(pp),
{
    let ghost g0: Seq<ArgModel> = Seq::empty();
    assert(b.subrange(14, trace[0].0) =~= enc_args(g0));
    assert(wf_args(g0));
    assert(trace_end(trace, cur, 0) == trace[1].0);
    let ghost g1 = g0 + trace[0].1;
    lemma_enc_args_concat(g0, trace[0].1);
    lemma_wf_args_concat(g0, trace[0].1);
    lemma_subrange_concat(b, 14, trace[0].0, trace[1].0);
    assert(b.subrange(14, trace[1].0) == enc_args(g1));
    assert(trace_end(trace, cur, 1) == trace[2].0);
    let ghost g2 = g1 + trace[1].1;
    lemma_enc_args_concat(g1, trace[1].1);
    lemma_wf_args_concat(g1, trace[1].1);
    lemma_subrange_concat(b, 14, trace[1].0, trace[2].0);
    assert(b.subrange(14, trace[2].0) == enc_args(g2));
    assert(trace_end(trace, cur, 2) == trace[3].0);
    let ghost g3 = g2 + trace[2].1;
    lemma_enc_args_concat(g2, trace[2].1);
    lemma_wf_args_concat(g2, trace[2].1);
    lemma_subrange_concat(b, 14, trace[2].0, trace[3].0);
    assert(b.subrange(14, trace[3].0) == enc_args(g3));
    assert(trace_end(trace, cur, 3) == trace[4].0);
    let ghost g4 = g3 + trace[3].1;
    lemma_enc_args_concat(g3, trace[3].1);
    lemma_wf_args_concat(g3, trace[3].1);
    lemma_subrange_concat(b, 14, trace[3].0, trace[4].0);
    assert(b.subrange(14, trace[4].0) == enc_args(g4));
    assert(trace_end(trace, cur, 4) == trace[5].0);
    let ghost g5 = g4 + trace[4].1;
    lemma_enc_args_concat(g4, trace[4].1);
    lemma_wf_args_concat(g4, trace[4].1);
    lemma_subrange_concat(b, 14, trace[4].0, trace[5].0);
    assert(b.subrange(14, trace[5].0) == enc_args(g5));
    assert(trace_end(trace, cur, 5) == trace[6].0);
    let ghost g6 = g5 + trace[5].1;
    lemma_enc_args_concat(g5, trace[5].1);
    lemma_wf_args_concat(g5, trace[5].1);
    lemma_subrange_concat(b, 14, trace[5].0, trace[6].0);
    assert(b.subrange(14, trace[6].0) == enc_args(g6));
    assert(trace_end(trace, cur, 6) == trace[7].0);
    let ghost g7 = g6 + trace[6].1;
    lemma_enc_args_concat(g6, trace[6].1);
    lemma_wf_args_concat(g6, trace[6].1);
    lemma_subrange_concat(b, 14, trace[6].0, trace[7].0);
    assert(b.subrange(14, trace[7].0) == enc_args(g7));
    assert(trace_end(trace, cur, 7) == trace[8].0);
    let ghost g8 = g7 + trace[7].1;
    lemma_enc_args_concat(g7, trace[7].1);
    lemma_wf_args_concat(g7, trace[7].1);
    lemma_subrange_concat(b, 14, trace[7].0, trace[8].0);
    assert(b.subrange(14, trace[8].0) == enc_args(g8));
    assert(trace_end(trace, cur, 8) == trace[9].0);
    let ghost g9 = g8 + trace[8].1;
    lemma_enc_args_concat(g8, trace[8].1);
    lemma_wf_args_concat(g8, trace[8].1);
    lemma_subrange_concat(b, 14, trace[8].0, trace[9].0);
    assert(b.subrange(14, trace[9].0) == enc_args(g9));
    assert(trace_end(trace, cur, 9) == trace[10].0);
    let ghost g10 = g9 + trace[9].1;
    lemma_enc_args_concat(g9, trace[9].1);
    lemma_wf_args_concat(g9, trace[9].1);
    lemma_subrange_concat(b, 14, trace[9].0, trace[10].0);
    assert(b.subrange(14, trace[10].0) == enc_args(g10));
    assert(trace_end(trace, cur, 10) == trace[11].0);
    let ghost g11 = g10 + trace[10].1;
    lemma_enc_args_concat(g10, trace[10].1);
    lemma_wf_args_concat(g10, trace[10].1);
    lemma_subrange_concat(b, 14, trace[10].0, trace[11].0);
    assert(b.subrange(14, trace[11].0) == enc_args(g11));
    assert(trace_end(trace, cur, 11) == trace[12].0);
    let ghost g12 = g11 + trace[11].1;
    lemma_enc_args_concat(g11, trace[11].1);
    lemma_wf_args_concat(g11, trace[11].1);
    lemma_subrange_concat(b, 14, trace[11].0, trace[12].0);
    assert(b.subrange(14, trace[12].0) == enc_args(g12));
    assert(trace_end(trace, cur, 12) == cur);
    let ghost g13 = g12 + trace[12].1;
    lemma_enc_args_concat(g12, trace[12].1);
    lemma_wf_args_concat(g12, trace[12].1);
    lemma_subrange_concat(b, 14, trace[12].0, cur);
    assert(b.subrange(14, cur) == enc_args(g13));
    assert(props_args(pp) == g13);
    assert(wf_props(pp));
}

/// Once all thirteen properties are read and the cursor stands at the end,
/// the whole payload is exactly the encoding of the rebuilt header.
#[verifier::rlimit(100)]
#[verifier::spinoff_prover]
proof fn lemma_header_sound(
    b: Seq<u8>,
    cls: u16,
    size: u64,
    flags: u16,
    trace: Seq<(int, Seq<ArgModel>)>,
    cur: int,
    pp: Properties,
)
    requires
        b.len() >= 14,
        be16(cls) == b.subrange(0, 2),
        be16(0) == b.subrange(2, 4),
        be64(size) == b.subrange(4, 12),
        be16(flags) == b.subrange(12, 14),
        flags % 8 == 1,
        cur == b.len(),
        trace.len() == 13,
        trace[0].0 == 14,
        14 <= cur <= b.len(),
        forall|j: int| 0 <= j < 13 ==> #[trigger] trace[j].0 <= trace_end(trace, cur, j),
        forall|j: int| 0 <= j < 13 ==> b.subrange(
            #[trigger] trace[j].0,
            trace_end(trace, cur, j),
        ) == enc_args(trace[j].1),
        forall|j: int| 0 <= j < 13 ==> args_match(#[trigger] trace[j].1, bit_schema(flags, j)),
        forall|j: int| 0 <= j < 13 ==> wf_args(#[trigger] trace[j].1),
        forall|j: int| 0 <= j < 13 ==> #[trigger] trace[j].1 == chunk_of(pp, j),
    ensures
        wf_props(pp),
        flags == flags_of(pp),
        b == enc_header(cls, size, pp),
{
    assert(trace[0].1 == chunk_of(pp, 0));
    assert(args_match(trace[0].1, bit_schema(flags, 0)));
    assert((pp.content_type is Some) == ((flags / 0x8000) % 2 == 1)) by {
        assert(chunk_of(pp, 0).len() == bit_schema(flags, 0).len());
    }
    assert(trace[1].1 == chunk_of(pp, 1));
    assert(args_match(trace[1].1, bit_schema(flags, 1)));
    assert((pp.content_encoding is Some) == ((flags / 0x4000) % 2 == 1)) by {
        assert(chunk_of(pp, 1).len() == bit_schema(flags, 1).len());
    }
    assert(trace[2].1 == chunk_of(pp, 2));
    assert(args_match(trace[2].1, bit_schema(flags, 2)));
    assert((pp.headers is Some) == ((flags / 0x2000) % 2 == 1)) by {
        assert(chunk_of(pp, 2).len() == bit_schema(flags, 2).len());
    }
    assert(trace[3].1 == chunk_of(pp, 3));
    assert(args_match(trace[3].1, bit_schema(flags, 3)));
    assert((pp.delivery_mode is Some) == ((flags / 0x1000) % 2 == 1)) by {
        assert(chunk_of(pp, 3).len() == bit_schema(flags, 3).len());
    }
    assert(trace[4].1 == chunk_of(pp, 4));
    assert(args_match(trace[4].1, bit_schema(flags, 4)));
    assert((pp.priority is Some) == ((flags / 0x0800) % 2 == 1)) by {
        assert(chunk_of(pp, 4).len() == bit_schema(flags, 4).len());
    }
    assert(trace[5].1 == chunk_of(pp, 5));
    assert(args_match(trace[5].1, bit_schema(flags, 5)));
    assert((pp.correlation_id is Some) == ((flags / 0x0400) % 2 == 1)) by {
        assert(chunk_of(pp, 5).len() == bit_schema(flags, 5).len());
    }
    assert(trace[6].1 == chunk_of(pp, 6));
    assert(args_match(trace[6].1, bit_schema(flags, 6)));
    assert((pp.reply_to is Some) == ((flags / 0x0200) % 2 == 1)) by {
        assert(chunk_of(pp, 6).len() == bit_schema(flags, 6).len());
    }
    assert(trace[7].1 == chunk_of(pp, 7));
    assert(args_match(trace[7].1, bit_schema(flags, 7)));
    assert((pp.expiration is Some) == ((flags / 0x0100) % 2 == 1)) by {
        assert(chunk_of(pp, 7).len() == bit_schema(flags, 7).len());
    }
    assert(trace[8].1 == chunk_of(pp, 8));
    assert(args_match(trace[8].1, bit_schema(flags, 8)));
    assert((pp.message_id is Some) == ((flags / 0x0080) % 2 == 1)) by {
        assert(chunk_of(pp, 8).len() == bit_schema(flags, 8).len());
    }
    assert(trace[9].1 == chunk_of(pp, 9));
    assert(args_match(trace[9].1, bit_schema(flags, 9)));
    assert((pp.timestamp is Some) == ((flags / 0x0040) % 2 == 1)) by {
        assert(chunk_of(pp, 9).len() == bit_schema(flags, 9).len());
    }
    assert(trace[10].1 == chunk_of(pp, 10));
    assert(args_match(trace[10].1, bit_schema(flags, 10)));
    assert((pp.type_ is Some) == ((flags / 0x0020) % 2 == 1)) by {
        assert(chunk_of(pp, 10).len() == bit_schema(flags, 10).len());
    }
    assert(trace[11].1 == chunk_of(pp, 11));
    assert(args_match(trace[11].1, bit_schema(flags, 11)));
    assert((pp.user_id is Some) == ((flags / 0x0010) % 2 == 1)) by {
        assert(chunk_of(pp, 11).len() == bit_schema(flags, 11).len());
    }
    assert(trace[12].1 == chunk_of(pp, 12));
    assert(args_match(trace[12].1, bit_schema(flags, 12)));
    assert((pp.app_id is Some) == ((flags / 0x0008) % 2 == 1)) by {
        assert(chunk_of(pp, 12).len() == bit_schema(flags, 12).len());
    }
    lemma_flags_sound(flags, pp);
    lemma_props_bytes_sound(b, trace, cur, pp);
    lemma_subrange_concat(b, 0, 2, 4);
    lemma_subrange_concat(b, 0, 4, 12);
    lemma_subrange_concat(b, 0, 12, 14);
    lemma_subrange_concat(b, 0, 14, b.len() as int);
    assert(b.subrange(0, b.len() as int) =~= b);
    assert(b == enc_header(cls, size, pp));
}

/// With the payload shown to be exactly the encoding of the rebuilt header,
/// the encoding of any other well-formed header that equals the payload
/// carries the same class id, body size, flags and properties.
#[verifier::rlimit(100)]
#[verifier::spinoff_prover]
proof fn lemma_header_complete(
    b: Seq<u8>,
    flags: u16,
    trace: Seq<(int, Seq<ArgModel>)>,
    cur: int,
    h: ContentHeaderPayload,
)
    requires
        b.len() >= 14,
        be16(flags) == b.subrange(12, 14),
        trace.len() == 13,
        trace[0].0 == 14,
        14 <= cur <= b.len(),
        forall|j: int| 0 <= j < 13 ==> #[trigger] trace[j].0 <= trace_end(trace, cur, j),
        forall|j: int| 0 <= j < 13 ==> b.subrange(
            #[trigger] trace[j].0,
            trace_end(trace, cur, j),
        ) == enc_args(trace[j].1),
        forall|j: int| 0 <= j < 13 ==> args_match(#[trigger] trace[j].1, bit_schema(flags, j)),
        forall|j: int| 0 <= j < 13 ==> wf_args(#[trigger] trace[j].1),
        forall|j: int| 0 <= j < 13 ==> #[trigger] trace[j].1 == chunk_of(h.properties, j),
        flags == flags_of(h.properties),
        be16(h.class_id) == b.subrange(0, 2),
        be64(h.body_size) == b.subrange(4, 12),
    ensures
        forall|cls: u16, size: u64, pp: Properties| #![trigger enc_header(cls, size, pp)]
            (wf_props(pp) && b == enc_header(cls, size, pp)) ==> header_model(h) == (
                cls,
                size,
                flags_of(pp),
                props_args(pp),
            ),
{
    lemma_header_decoded(b, flags, trace, cur);
    assert forall|cls: u16, size: u64, pp: Properties| #![trigger enc_header(cls, size, pp)]
        (wf_props(pp) && b == enc_header(cls, size, pp)) implies header_model(h) == (
        cls,
        size,
        flags_of(pp),
        props_args(pp),
    ) by {
        lemma_be16_inj(h.class_id, cls);
        crate::wire::lemma_be64_inj(h.body_size, size);
        assert(trace[0].1 == chunk_of(pp, 0));
        assert(opt_sstr_arg(pp.content_type) == opt_sstr_arg(h.properties.content_type));
        assert(trace[1].1 == chunk_of(pp, 1));
        assert(opt_sstr_arg(pp.content_encoding) == opt_sstr_arg(h.properties.content_encoding));
        assert(trace[2].1 == chunk_of(pp, 2));
        assert(opt_table_arg(pp.headers) == opt_table_arg(h.properties.headers));
        assert(trace[3].1 == chunk_of(pp, 3));
        assert(opt_octet_arg(pp.delivery_mode) == opt_octet_arg(h.properties.delivery_mode));
        assert(trace[4].1 == chunk_of(pp, 4));
        assert(opt_octet_arg(pp.priority) == opt_octet_arg(h.properties.priority));
        assert(trace[5].1 == chunk_of(pp, 5));
        assert(opt_sstr_arg(pp.correlation_id) == opt_sstr_arg(h.properties.correlation_id));
        assert(trace[6].1 == chunk_of(pp, 6));
        assert(opt_sstr_arg(pp.reply_to) == opt_sstr_arg(h.properties.reply_to));
        assert(trace[7].1 == chunk_of(pp, 7));
        assert(opt_sstr_arg(pp.expiration) == opt_sstr_arg(h.properties.expiration));
        assert(trace[8].1 == chunk_of(pp, 8));
        assert(opt_sstr_arg(pp.message_id) == opt_sstr_arg(h.properties.message_id));
        assert(trace[9].1 == chunk_of(pp, 9));
        assert(opt_ts_arg(pp.timestamp) == opt_ts_arg(h.properties.timestamp));
        assert(trace[10].1 == chunk_of(pp, 10));
        assert(opt_sstr_arg(pp.type_) == opt_sstr_arg(h.properties.type_));
        assert(trace[11].1 == chunk_of(pp, 11));
        assert(opt_sstr_arg(pp.user_id) == opt_sstr_arg(h.properties.user_id));
        assert(trace[12].1 == chunk_of(pp, 12));
        assert(opt_sstr_arg(pp.app_id) == opt_sstr_arg(h.properties.app_id));
        assert(props_args(pp) == props_args(h.properties));
        assert(flags_of(pp) == flags_of(h.properties));
    }
}

/// Read the first run of optional properties, keeping the ghost record
/// of where each chunk sits.
#[verifier::rlimit(100)]
#[verifier::spinoff_prover]
fn read_props_a(
    b: &Vec<u8>,
    flags: u16,
) -> (r: Result<((Option<AmqpString>, Option<AmqpString>, Option<FieldTable>, Option<u8>), usize, Ghost<Seq<(int, Seq<ArgModel>)>>), DecodeError>)
    requires
        b@.len() >= 14,
        be16(flags) == b@.subrange(12, 14),
    ensures
        r matches Ok(p) ==> ({
            let (vs, cur, tr) = p;
            &&& tr@.len() == 4
            &&& tr@[0].0 == 14
            &&& 14 <= cur <= b@.len()
            &&& (forall|j: int| 0 <= j < 4 ==> #[trigger] tr@[j].0 <= trace_end(tr@, cur as int, j))
            &&& (forall|j: int| 0 <= j < 4 ==> b@.subrange(#[trigger] tr@[j].0, trace_end(tr@, cur as int, j)) == enc_args(tr@[j].1))
            &&& (forall|j: int| 0 <= j < 4 ==> args_match(#[trigger] tr@[j].1, bit_schema(flags, j)))
            &&& (forall|j: int| 0 <= j < 4 ==> wf_args(#[trigger] tr@[j].1))
            &&& tr@[0].1 == opt_sstr_arg(vs.0)
            &&& (vs.0 is Some <==> (flags / 0x8000) % 2 == 1)
            &&& tr@[1].1 == opt_sstr_arg(vs.1)
            &&& (vs.1 is Some <==> (flags / 0x4000) % 2 == 1)
            &&& tr@[2].1 == opt_table_arg(vs.2)
            &&& (vs.2 is Some <==> (flags / 0x2000) % 2 == 1)
            &&& tr@[3].1 == opt_octet_arg(vs.3)
            &&& (vs.3 is Some <==> (flags / 0x1000) % 2 == 1)
        }),
        r matches Err(e) ==> field_error(e),
        r is Err ==> forall|cls: u16, size: u64, pp: Properties| #![trigger enc_header(cls, size, pp)]
            !(wf_props(pp) && b@ == enc_header(cls, size, pp)),
{
    let mut pos: usize = 14;
    let ghost mut trace: Seq<(int, Seq<ArgModel>)> = Seq::empty();
    let ghost s1 = pos as int;
    let (content_type_v, np1) = match read_opt_sstr(b, pos, (flags / 0x8000) % 2 == 1) {
        Err(e) => {
            proof {
                assert(seq![prop_ty(0)] =~= seq![ArgumentDecodingInfo::ShortString]);
                no_header_here(b@, flags, 0, trace, pos as int);
            }
            return Err(e);
        },
        Ok(p) => p,
    };
    pos = np1;
    let ghost m1 = opt_sstr_arg(content_type_v);
    proof {
        assert(args_match(m1, bit_schema(flags, 0)));
        lemma_trace_push(b@, flags, trace, s1, m1, pos as int, 0);
        trace = trace.push((s1, m1));
    }
    let ghost s2 = pos as int;
    let (content_encoding_v, np2) = match read_opt_sstr(b, pos, (flags / 0x4000) % 2 == 1) {
        Err(e) => {
            proof {
                assert(seq![prop_ty(1)] =~= seq![ArgumentDecodingInfo::ShortString]);
                no_header_here(b@, flags, 1, trace, pos as int);
            }
            return Err(e);
        },
        Ok(p) => p,
    };
    pos = np2;
    let ghost m2 = opt_sstr_arg(content_encoding_v);
    proof {
        assert(args_match(m2, bit_schema(flags, 1)));
        lemma_trace_push(b@, flags, trace, s2, m2, pos as int, 1);
        trace = trace.push((s2, m2));
    }
    let ghost s3 = pos as int;
    let (headers_v, np3) = match read_opt_table(b, pos, (flags / 0x2000) % 2 == 1) {
        Err(e) => {
            proof {
                assert(seq![prop_ty(2)] =~= seq![ArgumentDecodingInfo::FieldTable]);
                no_header_here(b@, flags, 2, trace, pos as int);
            }
            return Err(e);
        },
        Ok(p) => p,
    };
    pos = np3;
    let ghost m3 = opt_table_arg(headers_v);
    proof {
        assert(args_match(m3, bit_schema(flags, 2)));
        lemma_trace_push(b@, flags, trace, s3, m3, pos as int, 2);
        trace = trace.push((s3, m3));
    }
    let ghost s4 = pos as int;
    let (delivery_mode_v, np4) = match read_opt_octet(b, pos, (flags / 0x1000) % 2 == 1) {
        Err(e) => {
            proof {
                assert(seq![prop_ty(3)] =~= seq![ArgumentDecodingInfo::Octet]);
                no_header_here(b@, flags, 3, trace, pos as int);
            }
            return Err(e);
        },
        Ok(p) => p,
    };
    pos = np4;
    let ghost m4 = opt_octet_arg(delivery_mode_v);
    proof {
        assert(args_match(m4, bit_schema(flags, 3)));
        lemma_trace_push(b@, flags, trace, s4, m4, pos as int, 3);
        trace = trace.push((s4, m4));
    }
    Ok(((content_type_v, content_encoding_v, headers_v, delivery_mode_v), pos, Ghost(trace)))
}

/// Read the next run of optional properties, keeping the ghost record
/// of where each chunk sits.
#[verifier::rlimit(100)]
#[verifier::spinoff_prover]
fn read_props_b(
    b: &Vec<u8>,
    flags: u16,
    start: usize,
    tr_in: Ghost<Seq<(int, Seq<ArgModel>)>>,
) -> (r: Result<((Option<u8>, Option<AmqpString>, Option<AmqpString>), usize, Ghost<Seq<(int, Seq<ArgModel>)>>), DecodeError>)
    requires
        b@.len() >= 14,
        be16(flags) == b@.subrange(12, 14),
        tr_in@.len() == 4,
        tr_in@[0].0 == 14,
        14 <= start <= b@.len(),
        forall|j: int| 0 <= j < 4 ==> #[trigger] tr_in@[j].0 <= trace_end(tr_in@, start as int, j),
        forall|j: int| 0 <= j < 4 ==> b@.subrange(#[trigger] tr_in@[j].0, trace_end(tr_in@, start as int, j)) == enc_args(tr_in@[j].1),
        forall|j: int| 0 <= j < 4 ==> args_match(#[trigger] tr_in@[j].1, bit_schema(flags, j)),
        forall|j: int| 0 <= j < 4 ==> wf_args(#[trigger] tr_in@[j].1),
    ensures
        r matches Ok(p) ==> ({
            let (vs, cur, tr) = p;
            &&& tr@.len() == 7
            &&& tr@[0].0 == 14
            &&& 14 <= cur <= b@.len()
            &&& (forall|j: int| 0 <= j < 7 ==> #[trigger] tr@[j].0 <= trace_end(tr@, cur as int, j))
            &&& (forall|j: int| 0 <= j < 7 ==> b@.subrange(#[trigger] tr@[j].0, trace_end(tr@, cur as int, j)) == enc_args(tr@[j].1))
            &&& (forall|j: int| 0 <= j < 7 ==> args_match(#[trigger] tr@[j].1, bit_schema(flags, j)))
            &&& (forall|j: int| 0 <= j < 7 ==> wf_args(#[trigger] tr@[j].1))
            &&& (forall|j: int| 0 <= j < 4 ==> #[trigger] tr@[j] == tr_in@[j])
            &&& tr@[4].1 == opt_octet_arg(vs.0)
            &&& (vs.0 is Some <==> (flags / 0x0800) % 2 == 1)
            &&& tr@[5].1 == opt_sstr_arg(vs.1)
            &&& (vs.1 is Some <==> (flags / 0x0400) % 2 == 1)
            &&& tr@[6].1 == opt_sstr_arg(vs.2)
            &&& (vs.2 is Some <==> (flags / 0x0200) % 2 == 1)
        }),
        r matches Err(e) ==> field_error(e),
        r is Err ==> forall|cls: u16, size: u64, pp: Properties| #![trigger enc_header(cls, size, pp)]
            !(wf_props(pp) && b@ == enc_header(cls, size, pp)),
{
    let mut pos: usize = start;
    let ghost mut trace: Seq<(int, Seq<ArgModel>)> = tr_in@;
    let ghost s5 = pos as int;
    let (priority_v, np5) = match read_opt_octet(b, pos, (flags / 0x0800) % 2 == 1) {
        Err(e) => {
            proof {
                assert(seq![prop_ty(4)] =~= seq![ArgumentDecodingInfo::Octet]);
                no_header_here(b@, flags, 4, trace, pos as int);
            }
            return Err(e);
        },
        Ok(p) => p,
    };
    pos = np5;
    let ghost m5 = opt_octet_arg(priority_v);
    proof {
        assert(args_match(m5, bit_schema(flags, 4)));
        lemma_trace_push(b@, flags, trace, s5, m5, pos as int, 4);
        trace = trace.push((s5, m5));
    }
    let ghost s6 = pos as int;
    let (correlation_id_v, np6) = match read_opt_sstr(b, pos, (flags / 0x0400) % 2 == 1) {
        Err(e) => {
            proof {
                assert(seq![prop_ty(5)] =~= seq![ArgumentDecodingInfo::ShortString]);
                no_header_here(b@, flags, 5, trace, pos as int);
            }
            return Err(e);
        },
        Ok(p) => p,
    };
    pos = np6;
    let ghost m6 = opt_sstr_arg(correlation_id_v);
    proof {
        assert(args_match(m6, bit_schema(flags, 5)));
        lemma_trace_push(b@, flags, trace, s6, m6, pos as int, 5);
        trace = trace.push((s6, m6));
    }
    let ghost s7 = pos as int;
    let (reply_to_v, np7) = match read_opt_sstr(b, pos, (flags / 0x0200) % 2 == 1) {
        Err(e) => {
            proof {
                assert(seq![prop_ty(6)] =~= seq![ArgumentDecodingInfo::ShortString]);
                no_header_here(b@, flags, 6, trace, pos as int);
            }
            return Err(e);
        },
        Ok(p) => p,
    };
    pos = np7;
    let ghost m7 = opt_sstr_arg(reply_to_v);
    proof {
        assert(args_match(m7, bit_schema(flags, 6)));
        lemma_trace_push(b@, flags, trace, s7, m7, pos as int, 6);
        trace = trace.push((s7, m7));
    }
    Ok(((priority_v, correlation_id_v, reply_to_v), pos, Ghost(trace)))
}

/// Read the next run of optional properties, keeping the ghost record
/// of where each chunk sits.
#[verifier::rlimit(100)]
#[verifier::spinoff_prover]
fn read_props_c(
    b: &Vec<u8>,
    flags: u16,
    start: usize,
    tr_in: Ghost<Seq<(int, Seq<ArgModel>)>>,
) -> (r: Result<((Option<AmqpString>, Option<AmqpString>, Option<i64>), usize, Ghost<Seq<(int, Seq<ArgModel>)>>), DecodeError>)
    requires
        b@.len() >= 14,
        be16(flags) == b@.subrange(12, 14),
        tr_in@.len() == 7,
        tr_in@[0].0 == 14,
        14 <= start <= b@.len(),
        forall|j: int| 0 <= j < 7 ==> #[trigger] tr_in@[j].0 <= trace_end(tr_in@, start as int, j),
        forall|j: int| 0 <= j < 7 ==> b@.subrange(#[trigger] tr_in@[j].0, trace_end(tr_in@, start as int, j)) == enc_args(tr_in@[j].1),
        forall|j: int| 0 <= j < 7 ==> args_match(#[trigger] tr_in@[j].1, bit_schema(flags, j)),
        forall|j: int| 0 <= j < 7 ==> wf_args(#[trigger] tr_in@[j].1),
    ensures
        r matches Ok(p) ==> ({
            let (vs, cur, tr) = p;
            &&& tr@.len() == 10
            &&& tr@[0].0 == 14
            &&& 14 <= cur <= b@.len()
            &&& (forall|j: int| 0 <= j < 10 ==> #[trigger] tr@[j].0 <= trace_end(tr@, cur as int, j))
            &&& (forall|j: int| 0 <= j < 10 ==> b@.subrange(#[trigger] tr@[j].0, trace_end(tr@, cur as int, j)) == enc_args(tr@[j].1))
            &&& (forall|j: int| 0 <= j < 10 ==> args_match(#[trigger] tr@[j].1, bit_schema(flags, j)))
            &&& (forall|j: int| 0 <= j < 10 ==> wf_args(#[trigger] tr@[j].1))
            &&& (forall|j: int| 0 <= j < 7 ==> #[trigger] tr@[j] == tr_in@[j])
            &&& tr@[7].1 == opt_sstr_arg(vs.0)
            &&& (vs.0 is Some <==> (flags / 0x0100) % 2 == 1)
            &&& tr@[8].1 == opt_sstr_arg(vs.1)
            &&& (vs.1 is Some <==> (flags / 0x0080) % 2 == 1)
            &&& tr@[9].1 == opt_ts_arg(vs.2)
            &&& (vs.2 is Some <==> (flags / 0x0040) % 2 == 1)
        }),
        r matches Err(e) ==> field_error(e),
        r is Err ==> forall|cls: u16, size: u64, pp: Properties| #![trigger enc_header(cls, size, pp)]
            !(wf_props(pp) && b@ == enc_header(cls, size, pp)),
{
    let mut pos: usize = start;
    let ghost mut trace: Seq<(int, Seq<ArgModel>)> = tr_in@;
    let ghost s8 = pos as int;
    let (expiration_v, np8) = match read_opt_sstr(b, pos, (flags / 0x0100) % 2 == 1) {
        Err(e) => {
            proof {
                assert(seq![prop_ty(7)] =~= seq![ArgumentDecodingInfo::ShortString]);
                no_header_here(b@, flags, 7, trace, pos as int);
            }
            return Err(e);
        },
        Ok(p) => p,
    };
    pos = np8;
    let ghost m8 = opt_sstr_arg(expiration_v);
    proof {
        assert(args_match(m8, bit_schema(flags, 7)));
        lemma_trace_push(b@, flags, trace, s8, m8, pos as int, 7);
        trace = trace.push((s8, m8));
    }
    let ghost s9 = pos as int;
    let (message_id_v, np9) = match read_opt_sstr(b, pos, (flags / 0x0080) % 2 == 1) {
        Err(e) => {
            proof {
                assert(seq![prop_ty(8)] =~= seq![ArgumentDecodingInfo::ShortString]);
                no_header_here(b@, flags, 8, trace, pos as int);
            }
            return Err(e);
        },
        Ok(p) => p,
    };
    pos = np9;
    let ghost m9 = opt_sstr_arg(message_id_v);
    proof {
        assert(args_match(m9, bit_schema(flags, 8)));
        lemma_trace_push(b@, flags, trace, s9, m9, pos as int, 8);
        trace = trace.push((s9, m9));
    }
    let ghost s10 = pos as int;
    let (timestamp_v, np10) = match read_opt_ts(b, pos, (flags / 0x0040) % 2 == 1) {
        Err(e) => {
            proof {
                assert(seq![prop_ty(9)] =~= seq![ArgumentDecodingInfo::LongLong]);
                no_header_here(b@, flags, 9, trace, pos as int);
            }
            return Err(e);
        },
        Ok(p) => p,
    };
    pos = np10;
    let ghost m10 = opt_ts_arg(timestamp_v);
    proof {
        assert(args_match(m10, bit_schema(flags, 9)));
        lemma_trace_push(b@, flags, trace, s10, m10, pos as int, 9);
        trace = trace.push((s10, m10));
    }
    Ok(((expiration_v, message_id_v, timestamp_v), pos, Ghost(trace)))
}

/// Read the next run of optional properties, keeping the ghost record
/// of where each chunk sits.
#[verifier::rlimit(100)]
#[verifier::spinoff_prover]
fn read_props_d(
    b: &Vec<u8>,
    flags: u16,
    start: usize,
    tr_in: Ghost<Seq<(int, Seq<ArgModel>)>>,
) -> (r: Result<((Option<AmqpString>, Option<AmqpString>, Option<AmqpString>), usize, Ghost<Seq<(int, Seq<ArgModel>)>>), DecodeError>)
    requires
        b@.len() >= 14,
        be16(flags) == b@.subrange(12, 14),
        tr_in@.len() == 10,
        tr_in@[0].0 == 14,
        14 <= start <= b@.len(),
        forall|j: int| 0 <= j < 10 ==> #[trigger] tr_in@[j].0 <= trace_end(tr_in@, start as int, j),
        forall|j: int| 0 <= j < 10 ==> b@.subrange(#[trigger] tr_in@[j].0, trace_end(tr_in@, start as int, j)) == enc_args(tr_in@[j].1),
        forall|j: int| 0 <= j < 10 ==> args_match(#[trigger] tr_in@[j].1, bit_schema(flags, j)),
        forall|j: int| 0 <= j < 10 ==> wf_args(#[trigger] tr_in@[j].1),
    ensures
        r matches Ok(p) ==> ({
            let (vs, cur, tr) = p;
            &&& tr@.len() == 13
            &&& tr@[0].0 == 14
            &&& 14 <= cur <= b@.len()
            &&& (forall|j: int| 0 <= j < 13 ==> #[trigger] tr@[j].0 <= trace_end(tr@, cur as int, j))
            &&& (forall|j: int| 0 <= j < 13 ==> b@.subrange(#[trigger] tr@[j].0, trace_end(tr@, cur as int, j)) == enc_args(tr@[j].1))
            &&& (forall|j: int| 0 <= j < 13 ==> args_match(#[trigger] tr@[j].1, bit_schema(flags, j)))
            &&& (forall|j: int| 0 <= j < 13 ==> wf_args(#[trigger] tr@[j].1))
            &&& (forall|j: int| 0 <= j < 10 ==> #[trigger] tr@[j] == tr_in@[j])
            &&& tr@[10].1 == opt_sstr_arg(vs.0)
            &&& (vs.0 is Some <==> (flags / 0x0020) % 2 == 1)
            &&& tr@[11].1 == opt_sstr_arg(vs.1)
            &&& (vs.1 is Some <==> (flags / 0x0010) % 2 == 1)
            &&& tr@[12].1 == opt_sstr_arg(vs.2)
            &&& (vs.2 is Some <==> (flags / 0x0008) % 2 == 1)
        }),
        r matches Err(e) ==> field_error(e),
        r is Err ==> forall|cls: u16, size: u64, pp: Properties| #![trigger enc_header(cls, size, pp)]
            !(wf_props(pp) && b@ == enc_header(cls, size, pp)),
{
    let mut pos: usize = start;
    let ghost mut trace: Seq<(int, Seq<ArgModel>)> = tr_in@;
    let ghost s11 = pos as int;
    let (type__v, np11) = match read_opt_sstr(b, pos, (flags / 0x0020) % 2 == 1) {
        Err(e) => {
            proof {
                assert(seq![prop_ty(10)] =~= seq![ArgumentDecodingInfo::ShortString]);
                no_header_here(b@, flags, 10, trace, pos as int);
            }
            return Err(e);
        },
        Ok(p) => p,
    };
    pos = np11;
    let ghost m11 = opt_sstr_arg(type__v);
    proof {
        assert(args_match(m11, bit_schema(flags, 10)));
        lemma_trace_push(b@, flags, trace, s11, m11, pos as int, 10);
        trace = trace.push((s11, m11));
    }
    let ghost s12 = pos as int;
    let (user_id_v, np12) = match read_opt_sstr(b, pos, (flags / 0x0010) % 2 == 1) {
        Err(e) => {
            proof {
                assert(seq![prop_ty(11)] =~= seq![ArgumentDecodingInfo::ShortString]);
                no_header_here(b@, flags, 11, trace, pos as int);
            }
            return Err(e);
        },
        Ok(p) => p,
    };
    pos = np12;
    let ghost m12 = opt_sstr_arg(user_id_v);
    proof {
        assert(args_match(m12, bit_schema(flags, 11)));
        lemma_trace_push(b@, flags, trace, s12, m12, pos as int, 11);
        trace = trace.push((s12, m12));
    }
    let ghost s13 = pos as int;
    let (app_id_v, np13) = match read_opt_sstr(b, pos, (flags / 0x0008) % 2 == 1) {
        Err(e) => {
            proof {
                assert(seq![prop_ty(12)] =~= seq![ArgumentDecodingInfo::ShortString]);
                no_header_here(b@, flags, 12, trace, pos as int);
            }
            return Err(e);
        },
        Ok(p) => p,
    };
    pos = np13;
    let ghost m13 = opt_sstr_arg(app_id_v);
    proof {
        assert(args_match(m13, bit_schema(flags, 12)));
        lemma_trace_push(b@, flags, trace, s13, m13, pos as int, 12);
        trace = trace.push((s13, m13));
    }
    Ok(((type__v, user_id_v, app_id_v), pos, Ghost(trace)))
}

/// Decode a content-header payload.
///
/// The decoder is strict: the weight word must be zero, the three low bits
/// of the flags word must be exactly the end-of-list bit, and nothing may
/// follow the announced properties.  A zero class id is carried through
/// unchanged: the non-zero invariant is the producers' to keep.  On success
/// the payload is exactly the encoding of the result, and decoding the
/// encoding of any well-formed header yields its class id, body size and
/// exactly its present properties back.
#[verifier::rlimit(100)]
#[verifier::spinoff_prover]
pub fn decode_payload(b: &Vec<u8>) -> (r: Result<ContentHeaderPayload, DecodeError>)
    ensures
        r matches Ok(h) ==> wf_props(h.properties) && b@ == enc_header(
            h.class_id,
            h.body_size,
            h.properties,
        ),
        forall|cls: u16, size: u64, pp: Properties| #![trigger enc_header(cls, size, pp)]
            wf_props(pp) && b@ == enc_header(cls, size, pp) ==> (r matches Ok(h) && header_model(h)
                == (cls, size, flags_of(pp), props_args(pp))),
        r matches Err(e) ==> field_error(e) || e == DecodeError::InvalidContentHeader,
{
    let n = b.len();
    if n < 14 {
        proof {
            no_header_short(b@);
        }
        return Err(DecodeError::PayloadTruncated);
    }
    let class_id = get_u16(b, 0);
    let weight = get_u16(b, 2);
    if weight != 0 {
        proof {
            no_header_weight(b@, weight);
        }
        return Err(DecodeError::InvalidContentHeader);
    }
    let body_size = get_u64(b, 4);
    let flags = get_u16(b, 12);
    if flags % 8 != 1 {
        proof {
            no_header_low_bits(b@, flags);
        }
        return Err(DecodeError::InvalidContentHeader);
    }
    let (va, pa, ta) = match read_props_a(b, flags) {
        Err(e) => {
            return Err(e);
        },
        Ok(p) => p,
    };
    let (vb, pb, tb) = match read_props_b(b, flags, pa, ta) {
        Err(e) => {
            return Err(e);
        },
        Ok(p) => p,
    };
    let (vc, pc, tc) = match read_props_c(b, flags, pb, tb) {
        Err(e) => {
            return Err(e);
        },
        Ok(p) => p,
    };
    let (vd, pos, tr13) = match read_props_d(b, flags, pc, tc) {
        Err(e) => {
            return Err(e);
        },
        Ok(p) => p,
    };
    if pos != n {
        proof {
            lemma_header_decoded(b@, flags, tr13@, pos as int);
            assert forall|cls: u16, size: u64, pp: Properties| #![trigger enc_header(cls, size, pp)]
                !(wf_props(pp) && b@ == enc_header(cls, size, pp)) by {
                if wf_props(pp) && b@ == enc_header(cls, size, pp) {
                    assert(false);
                }
            }
        }
        return Err(DecodeError::InvalidContentHeader);
    }
    let props = Properties {
        content_type: va.0,
        content_encoding: va.1,
        headers: va.2,
        delivery_mode: va.3,
        priority: vb.0,
        correlation_id: vb.1,
        reply_to: vb.2,
        expiration: vc.0,
        message_id: vc.1,
        timestamp: vc.2,
        type_: vd.0,
        user_id: vd.1,
        app_id: vd.2,
    };
    let h = ContentHeaderPayload { class_id, body_size, properties: props };
    proof {
        assert(tr13@[0].1 == opt_sstr_arg(h.properties.content_type));
        assert(tr13@[1].1 == opt_sstr_arg(h.properties.content_encoding));
        assert(tr13@[2].1 == opt_table_arg(h.properties.headers));
        assert(tr13@[3].1 == opt_octet_arg(h.properties.delivery_mode));
        assert(tr13@[4].1 == opt_octet_arg(h.properties.priority));
        assert(tr13@[5].1 == opt_sstr_arg(h.properties.correlation_id));
        assert(tr13@[6].1 == opt_sstr_arg(h.properties.reply_to));
        assert(tr13@[7].1 == opt_sstr_arg(h.properties.expiration));
        assert(tr13@[8].1 == opt_sstr_arg(h.properties.message_id));
        assert(tr13@[9].1 == opt_ts_arg(h.properties.timestamp));
        assert(tr13@[10].1 == opt_sstr_arg(h.properties.type_));
        assert(tr13@[11].1 == opt_sstr_arg(h.properties.user_id));
        assert(tr13@[12].1 == opt_sstr_arg(h.properties.app_id));
        assert(forall|j: int| 0 <= j < 13 ==> #[trigger] tr13@[j].1 == chunk_of(
            h.properties,
            j,
        )) by {
            assert(tr13@[0].1 == chunk_of(h.properties, 0));
            assert(tr13@[1].1 == chunk_of(h.properties, 1));
            assert(tr13@[2].1 == chunk_of(h.properties, 2));
            assert(tr13@[3].1 == chunk_of(h.properties, 3));
            assert(tr13@[4].1 == chunk_of(h.properties, 4));
            assert(tr13@[5].1 == chunk_of(h.properties, 5));
            assert(tr13@[6].1 == chunk_of(h.properties, 6));
            assert(tr13@[7].1 == chunk_of(h.properties, 7));
            assert(tr13@[8].1 == chunk_of(h.properties, 8));
            assert(tr13@[9].1 == chunk_of(h.properties, 9));
            assert(tr13@[10].1 == chunk_of(h.properties, 10));
            assert(tr13@[11].1 == chunk_of(h.properties, 11));
            assert(tr13@[12].1 == chunk_of(h.properties, 12));
        }
        lemma_header_sound(b@, class_id, body_size, flags, tr13@, pos as int, h.properties);
        lemma_header_complete(b@, flags, tr13@, pos as int, h);
    }
    Ok(h)
}

} // verus!
