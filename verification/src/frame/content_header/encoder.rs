//! Encoding of content-header payloads.

use vstd::prelude::*;

use crate::args::{AmqpString, FieldTable, table_model};
use crate::errors::EncodeError;
use crate::methods::args::{
    Argument, Arguments, ArgModel, args_model, arg_model, encode_args, wf_args,
};
use crate::wire::{put_u16, put_u64};
use super::{
    ContentHeaderPayload, Properties, props_args, flags_of, wf_props, enc_header, opt_sstr_arg,
    opt_octet_arg, opt_ts_arg, opt_table_arg,
};

verus! {

proof fn lemma_args_model_snoc(s: Seq<Argument>, a: Argument)
    ensures
        args_model(s.push(a)) == args_model(s).push(arg_model(a)),
{
    assert(args_model(s.push(a)) =~= args_model(s).push(arg_model(a))) by {
        assert(forall|j: int| 0 <= j < s.len() ==> #[trigger] s.push(a)[j] == s[j]);
        assert(s.push(a)[s.len() as int] == a);
    }
}

/// One term of the flags word.
fn flag_term(present: bool, mask: u16) -> (r: u16)
    ensures
        r == (if present { mask } else { 0u16 }),
{
    if present {
        mask
    } else {
        0
    }
}

/// The upper seven terms of the flags word.
spec fn flags_hi(p: Properties) -> int {
    (if p.content_type is Some { 0x8000 as int } else { 0 })
        + (if p.content_encoding is Some { 0x4000 as int } else { 0 })
        + (if p.headers is Some { 0x2000 as int } else { 0 })
        + (if p.delivery_mode is Some { 0x1000 as int } else { 0 })
        + (if p.priority is Some { 0x0800 as int } else { 0 })
        + (if p.correlation_id is Some { 0x0400 as int } else { 0 })
        + (if p.reply_to is Some { 0x0200 as int } else { 0 })
}

/// The lower six terms of the flags word, plus the always-set low bit.
spec fn flags_lo(p: Properties) -> int {
    (if p.expiration is Some { 0x0100 as int } else { 0 })
        + (if p.message_id is Some { 0x0080 as int } else { 0 })
        + (if p.timestamp is Some { 0x0040 as int } else { 0 })
        + (if p.type_ is Some { 0x0020 as int } else { 0 })
        + (if p.user_id is Some { 0x0010 as int } else { 0 })
        + (if p.app_id is Some { 0x0008 as int } else { 0 }) + 1
}

proof fn lemma_flags_halves(p: Properties)
    ensures
        flags_of(p) as int == flags_hi(p) + flags_lo(p),
        0 <= flags_hi(p) <= 0xFE00,
        1 <= flags_lo(p) <= 0x01F9,
{
}

#[verifier::rlimit(100)]
#[verifier::spinoff_prover]
fn props_flags_hi(p: &Properties) -> (r: u32)
    ensures
        r == flags_hi(*p),
{
    let x1 = flag_term(p.content_type.is_some(), 0x8000);
    let x2 = flag_term(p.content_encoding.is_some(), 0x4000);
    let x3 = flag_term(p.headers.is_some(), 0x2000);
    let x4 = flag_term(p.delivery_mode.is_some(), 0x1000);
    let x5 = flag_term(p.priority.is_some(), 0x0800);
    let x6 = flag_term(p.correlation_id.is_some(), 0x0400);
    let x7 = flag_term(p.reply_to.is_some(), 0x0200);
    let total: u32 = x1 as u32 + x2 as u32 + x3 as u32 + x4 as u32 + x5 as u32 + x6 as u32 + x7 as u32;
    proof {
        assert(total as int == flags_hi(*p));
    }
    total
}

#[verifier::rlimit(100)]
#[verifier::spinoff_prover]
fn props_flags_lo(p: &Properties) -> (r: u32)
    ensures
        r == flags_lo(*p),
{
    let x8 = flag_term(p.expiration.is_some(), 0x0100);
    let x9 = flag_term(p.message_id.is_some(), 0x0080);
    let x10 = flag_term(p.timestamp.is_some(), 0x0040);
    let x11 = flag_term(p.type_.is_some(), 0x0020);
    let x12 = flag_term(p.user_id.is_some(), 0x0010);
    let x13 = flag_term(p.app_id.is_some(), 0x0008);
    let total: u32 = x8 as u32 + x9 as u32 + x10 as u32 + x11 as u32 + x12 as u32 + x13 as u32 + 1;
    proof {
        assert(total as int == flags_lo(*p));
    }
    total
}

/// The flags word announcing which properties are present.
fn props_flags(p: &Properties) -> (r: u16)
    ensures
        r == flags_of(*p),
{
    let hi = props_flags_hi(p);
    let lo = props_flags_lo(p);
    proof {
        lemma_flags_halves(*p);
    }
    (hi + lo) as u16
}

/// Append the argument of one optional short-string property.
fn push_opt_sstr(v: &mut Vec<Argument>, o: Option<AmqpString>)
    ensures
        args_model(final(v)@) == args_model(old(v)@) + opt_sstr_arg(o),
{
    match o {
        Some(s) => {
            let ghost v0 = v@;
            v.push(Argument::ShortString(s));
            proof {
                lemma_args_model_snoc(v0, v@.last());
                assert(args_model(v@) =~= args_model(v0) + opt_sstr_arg(o));
            }
        },
        None => {
            proof {
                assert(args_model(v@) =~= args_model(v@) + opt_sstr_arg(o));
            }
        },
    }
}

/// Append the argument of one optional octet property.
fn push_opt_octet(v: &mut Vec<Argument>, o: Option<u8>)
    ensures
        args_model(final(v)@) == args_model(old(v)@) + opt_octet_arg(o),
{
    match o {
        Some(x) => {
            let ghost v0 = v@;
            v.push(Argument::Octet(x));
            proof {
                lemma_args_model_snoc(v0, v@.last());
                assert(args_model(v@) =~= args_model(v0) + opt_octet_arg(o));
            }
        },
        None => {
            proof {
                assert(args_model(v@) =~= args_model(v@) + opt_octet_arg(o));
            }
        },
    }
}

/// Append the argument of one optional timestamp property.
fn push_opt_ts(v: &mut Vec<Argument>, o: Option<i64>)
    ensures
        args_model(final(v)@) == args_model(old(v)@) + opt_ts_arg(o),
{
    match o {
        Some(x) => {
            let ghost v0 = v@;
            v.push(Argument::LongLong(crate::wire::to_u64_bits(x)));
            proof {
                lemma_args_model_snoc(v0, v@.last());
                assert(args_model(v@) =~= args_model(v0) + opt_ts_arg(o));
            }
        },
        None => {
            proof {
                assert(args_model(v@) =~= args_model(v@) + opt_ts_arg(o));
            }
        },
    }
}

/// Append the argument of one optional table property.
fn push_opt_table(v: &mut Vec<Argument>, o: Option<FieldTable>)
    ensures
        args_model(final(v)@) == args_model(old(v)@) + opt_table_arg(o),
{
    match o {
        Some(t) => {
            let ghost v0 = v@;
            v.push(Argument::FieldTable(t));
            proof {
                lemma_args_model_snoc(v0, v@.last());
                assert(args_model(v@) =~= args_model(v0) + opt_table_arg(o));
            }
        },
        None => {
            proof {
                assert(args_model(v@) =~= args_model(v@) + opt_table_arg(o));
            }
        },
    }
}

/// The present properties as an argument list, in canonical order.
fn props_into_args(p: Properties) -> (r: Arguments)
    ensures
        args_model(r.0@) == props_args(p),
{
    let ghost p0 = p;
    let mut v: Vec<Argument> = Vec::new();
    push_opt_sstr(&mut v, p.content_type);
    push_opt_sstr(&mut v, p.content_encoding);
    push_opt_table(&mut v, p.headers);
    push_opt_octet(&mut v, p.delivery_mode);
    push_opt_octet(&mut v, p.priority);
    push_opt_sstr(&mut v, p.correlation_id);
    push_opt_sstr(&mut v, p.reply_to);
    push_opt_sstr(&mut v, p.expiration);
    push_opt_sstr(&mut v, p.message_id);
    push_opt_ts(&mut v, p.timestamp);
    push_opt_sstr(&mut v, p.type_);
    push_opt_sstr(&mut v, p.user_id);
    push_opt_sstr(&mut v, p.app_id);
    proof {
        assert(args_model(v@) == props_args(p0));
    }
    Arguments(v)
}

/// Encode a content-header payload.  Succeeds exactly when every present
/// property can stand on the wire.
pub fn encode_payload(payload: ContentHeaderPayload) -> (r: Result<Vec<u8>, EncodeError>)
    ensures
        r matches Ok(v) ==> wf_props(payload.properties) && v@ == enc_header(
            payload.class_id,
            payload.body_size,
            payload.properties,
        ),
        r is Err ==> !wf_props(payload.properties),
{
    let ghost pp = payload.properties;
    let flags = props_flags(&payload.properties);
    let args = props_into_args(payload.properties);
    let mut buf: Vec<u8> = Vec::new();
    put_u16(&mut buf, payload.class_id);
    put_u16(&mut buf, 0);
    put_u64(&mut buf, payload.body_size);
    put_u16(&mut buf, flags);
    match encode_args(&args, &mut buf) {
        Err(e) => Err(e),
        Ok(()) => {
            proof {
                assert(buf@ =~= enc_header(payload.class_id, payload.body_size, pp));
            }
            Ok(buf)
        },
    }
}

} // verus!
