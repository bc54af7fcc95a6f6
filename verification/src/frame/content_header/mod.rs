//! Content headers: class id, weight, body size, and the thirteen canonical
//! properties announced by a sixteen-bit flags word.

pub mod decoder;
pub mod encoder;

pub use self::decoder::decode_payload;
pub use self::encoder::encode_payload;

use vstd::prelude::*;

use crate::args::{AmqpString, FieldTable, table_model};
use crate::methods::args::{ArgModel, ArgumentDecodingInfo, wf_args, enc_args};
use crate::wire::{be16, be64, u64_of_i64};

verus! {

/// A content-header payload.
#[derive(Debug, PartialEq)]
pub struct ContentHeaderPayload {
    pub class_id: u16,
    pub body_size: u64,
    pub properties: Properties,
}

/// The thirteen canonical content-header properties, each optional.
#[derive(Debug, PartialEq)]
pub struct Properties {
    pub content_type: Option<AmqpString>,
    pub content_encoding: Option<AmqpString>,
    pub headers: Option<FieldTable>,
    pub delivery_mode: Option<u8>,
    pub priority: Option<u8>,
    pub correlation_id: Option<AmqpString>,
    pub reply_to: Option<AmqpString>,
    pub expiration: Option<AmqpString>,
    pub message_id: Option<AmqpString>,
    pub timestamp: Option<i64>,
    pub type_: Option<AmqpString>,
    pub user_id: Option<AmqpString>,
    pub app_id: Option<AmqpString>,
}

impl Properties {
    /// A property record with nothing present.
    pub fn new() -> (r: Properties)
        ensures
            r.content_type is None,
            r.content_encoding is None,
            r.headers is None,
            r.delivery_mode is None,
            r.priority is None,
            r.correlation_id is None,
            r.reply_to is None,
            r.expiration is None,
            r.message_id is None,
            r.timestamp is None,
            r.type_ is None,
            r.user_id is None,
            r.app_id is None,
    {
        Properties {
            content_type: None,
            content_encoding: None,
            headers: None,
            delivery_mode: None,
            priority: None,
            correlation_id: None,
            reply_to: None,
            expiration: None,
            message_id: None,
            timestamp: None,
            type_: None,
            user_id: None,
            app_id: None,
        }
    }
}

/// The property-flags word: bit (15 - i) announces the i-th property, and
/// the low bit is always set, saying the property list ends here.
pub open spec fn flags_of(p: Properties) -> u16 {
    ((if p.content_type is Some { 0x8000 as int } else { 0 })
        + (if p.content_encoding is Some { 0x4000 as int } else { 0 })
        + (if p.headers is Some { 0x2000 as int } else { 0 })
        + (if p.delivery_mode is Some { 0x1000 as int } else { 0 })
        + (if p.priority is Some { 0x0800 as int } else { 0 })
        + (if p.correlation_id is Some { 0x0400 as int } else { 0 })
        + (if p.reply_to is Some { 0x0200 as int } else { 0 })
        + (if p.expiration is Some { 0x0100 as int } else { 0 })
        + (if p.message_id is Some { 0x0080 as int } else { 0 })
        + (if p.timestamp is Some { 0x0040 as int } else { 0 })
        + (if p.type_ is Some { 0x0020 as int } else { 0 })
        + (if p.user_id is Some { 0x0010 as int } else { 0 })
        + (if p.app_id is Some { 0x0008 as int } else { 0 }) + 1) as u16
}

// The property list, seen as an argument list whose entries are the present
// properties in canonical order.

pub open spec fn opt_sstr_arg(o: Option<AmqpString>) -> Seq<ArgModel> {
    match o {
        Some(s) => seq![ArgModel::ShortString(s@)],
        None => Seq::empty(),
    }
}

pub open spec fn opt_octet_arg(o: Option<u8>) -> Seq<ArgModel> {
    match o {
        Some(x) => seq![ArgModel::Octet(x)],
        None => Seq::empty(),
    }
}

pub open spec fn opt_ts_arg(o: Option<i64>) -> Seq<ArgModel> {
    match o {
        Some(x) => seq![ArgModel::LongLong(u64_of_i64(x))],
        None => Seq::empty(),
    }
}

pub open spec fn opt_table_arg(o: Option<FieldTable>) -> Seq<ArgModel> {
    match o {
        Some(t) => seq![ArgModel::FieldTable(table_model(t.0@))],
        None => Seq::empty(),
    }
}

/// The present properties as an argument list, in canonical order.
pub open spec fn props_args(p: Properties) -> Seq<ArgModel> {
    opt_sstr_arg(p.content_type) + opt_sstr_arg(p.content_encoding) + opt_table_arg(p.headers) + opt_octet_arg(p.delivery_mode) + opt_octet_arg(p.priority) + opt_sstr_arg(p.correlation_id) + opt_sstr_arg(p.reply_to) + opt_sstr_arg(p.expiration) + opt_sstr_arg(p.message_id) + opt_ts_arg(p.timestamp) + opt_sstr_arg(p.type_) + opt_sstr_arg(p.user_id) + opt_sstr_arg(p.app_id)
}

/// A property record that can stand on the wire.
pub open spec fn wf_props(p: Properties) -> bool {
    wf_args(props_args(p))
}

/// The encoding of a content-header payload: class id, zero weight, body
/// size, the flags word, then the present properties in order.
pub open spec fn enc_header(cls: u16, size: u64, p: Properties) -> Seq<u8> {
    be16(cls) + be16(0) + be64(size) + be16(flags_of(p)) + enc_args(props_args(p))
}

/// The abstract model of a content-header payload: class id, body size, the
/// flags word and the property argument list, which together carry exactly
/// the thirteen optional properties.
pub open spec fn header_model(h: ContentHeaderPayload) -> (u16, u64, u16, Seq<ArgModel>) {
    (h.class_id, h.body_size, flags_of(h.properties), props_args(h.properties))
}

/// Each presence bit of the flags word announces its property, the low bit
/// is always set, and the two bits above it are always clear.
pub proof fn lemma_flags_bits(p: Properties)
    ensures
        ((flags_of(p) / 0x8000) % 2 == 1) == (p.content_type is Some),
        ((flags_of(p) / 0x4000) % 2 == 1) == (p.content_encoding is Some),
        ((flags_of(p) / 0x2000) % 2 == 1) == (p.headers is Some),
        ((flags_of(p) / 0x1000) % 2 == 1) == (p.delivery_mode is Some),
        ((flags_of(p) / 0x0800) % 2 == 1) == (p.priority is Some),
        ((flags_of(p) / 0x0400) % 2 == 1) == (p.correlation_id is Some),
        ((flags_of(p) / 0x0200) % 2 == 1) == (p.reply_to is Some),
        ((flags_of(p) / 0x0100) % 2 == 1) == (p.expiration is Some),
        ((flags_of(p) / 0x0080) % 2 == 1) == (p.message_id is Some),
        ((flags_of(p) / 0x0040) % 2 == 1) == (p.timestamp is Some),
        ((flags_of(p) / 0x0020) % 2 == 1) == (p.type_ is Some),
        ((flags_of(p) / 0x0010) % 2 == 1) == (p.user_id is Some),
        ((flags_of(p) / 0x0008) % 2 == 1) == (p.app_id is Some),
        flags_of(p) % 2 == 1,
        (flags_of(p) / 2) % 2 == 0,
        (flags_of(p) / 4) % 2 == 0,
        flags_of(p) % 8 == 1,
{
    let x1: u16 = if p.content_type is Some { 0x8000 } else { 0 };
    let x2: u16 = if p.content_encoding is Some { 0x4000 } else { 0 };
    let x3: u16 = if p.headers is Some { 0x2000 } else { 0 };
    let x4: u16 = if p.delivery_mode is Some { 0x1000 } else { 0 };
    let x5: u16 = if p.priority is Some { 0x0800 } else { 0 };
    let x6: u16 = if p.correlation_id is Some { 0x0400 } else { 0 };
    let x7: u16 = if p.reply_to is Some { 0x0200 } else { 0 };
    let x8: u16 = if p.expiration is Some { 0x0100 } else { 0 };
    let x9: u16 = if p.message_id is Some { 0x0080 } else { 0 };
    let x10: u16 = if p.timestamp is Some { 0x0040 } else { 0 };
    let x11: u16 = if p.type_ is Some { 0x0020 } else { 0 };
    let x12: u16 = if p.user_id is Some { 0x0010 } else { 0 };
    let x13: u16 = if p.app_id is Some { 0x0008 } else { 0 };
    let f = flags_of(p);
    assert(f == (x1 + x2 + x3 + x4 + x5 + x6 + x7 + x8 + x9 + x10 + x11 + x12 + x13 + 1) as u16);
    assert((((x1 + x2 + x3 + x4 + x5 + x6 + x7 + x8 + x9 + x10 + x11 + x12 + x13 + 1) as u16) / 0x8000) % 2 == (if x1 == 0x8000 { 1 as int } else { 0 })
        && (((x1 + x2 + x3 + x4 + x5 + x6 + x7 + x8 + x9 + x10 + x11 + x12 + x13 + 1) as u16) / 0x4000) % 2 == (if x2 == 0x4000 { 1 as int } else { 0 })
        && (((x1 + x2 + x3 + x4 + x5 + x6 + x7 + x8 + x9 + x10 + x11 + x12 + x13 + 1) as u16) / 0x2000) % 2 == (if x3 == 0x2000 { 1 as int } else { 0 })
        && (((x1 + x2 + x3 + x4 + x5 + x6 + x7 + x8 + x9 + x10 + x11 + x12 + x13 + 1) as u16) / 0x1000) % 2 == (if x4 == 0x1000 { 1 as int } else { 0 })
        && (((x1 + x2 + x3 + x4 + x5 + x6 + x7 + x8 + x9 + x10 + x11 + x12 + x13 + 1) as u16) / 0x0800) % 2 == (if x5 == 0x0800 { 1 as int } else { 0 })
        && (((x1 + x2 + x3 + x4 + x5 + x6 + x7 + x8 + x9 + x10 + x11 + x12 + x13 + 1) as u16) / 0x0400) % 2 == (if x6 == 0x0400 { 1 as int } else { 0 })
        && (((x1 + x2 + x3 + x4 + x5 + x6 + x7 + x8 + x9 + x10 + x11 + x12 + x13 + 1) as u16) / 0x0200) % 2 == (if x7 == 0x0200 { 1 as int } else { 0 })
        && (((x1 + x2 + x3 + x4 + x5 + x6 + x7 + x8 + x9 + x10 + x11 + x12 + x13 + 1) as u16) / 0x0100) % 2 == (if x8 == 0x0100 { 1 as int } else { 0 })
        && (((x1 + x2 + x3 + x4 + x5 + x6 + x7 + x8 + x9 + x10 + x11 + x12 + x13 + 1) as u16) / 0x0080) % 2 == (if x9 == 0x0080 { 1 as int } else { 0 })
        && (((x1 + x2 + x3 + x4 + x5 + x6 + x7 + x8 + x9 + x10 + x11 + x12 + x13 + 1) as u16) / 0x0040) % 2 == (if x10 == 0x0040 { 1 as int } else { 0 })
        && (((x1 + x2 + x3 + x4 + x5 + x6 + x7 + x8 + x9 + x10 + x11 + x12 + x13 + 1) as u16) / 0x0020) % 2 == (if x11 == 0x0020 { 1 as int } else { 0 })
        && (((x1 + x2 + x3 + x4 + x5 + x6 + x7 + x8 + x9 + x10 + x11 + x12 + x13 + 1) as u16) / 0x0010) % 2 == (if x12 == 0x0010 { 1 as int } else { 0 })
        && (((x1 + x2 + x3 + x4 + x5 + x6 + x7 + x8 + x9 + x10 + x11 + x12 + x13 + 1) as u16) / 0x0008) % 2 == (if x13 == 0x0008 { 1 as int } else { 0 })
        && ((x1 + x2 + x3 + x4 + x5 + x6 + x7 + x8 + x9 + x10 + x11 + x12 + x13 + 1) as u16) % 2 == 1
        && (((x1 + x2 + x3 + x4 + x5 + x6 + x7 + x8 + x9 + x10 + x11 + x12 + x13 + 1) as u16) / 2) % 2 == 0
        && (((x1 + x2 + x3 + x4 + x5 + x6 + x7 + x8 + x9 + x10 + x11 + x12 + x13 + 1) as u16) / 4) % 2 == 0
        && ((x1 + x2 + x3 + x4 + x5 + x6 + x7 + x8 + x9 + x10 + x11 + x12 + x13 + 1) as u16) % 8 == 1) by (bit_vector)
        requires
            (x1 == 0 || x1 == 0x8000) && (x2 == 0 || x2 == 0x4000) && (x3 == 0 || x3 == 0x2000) && (x4 == 0 || x4 == 0x1000) && (x5 == 0 || x5 == 0x0800) && (x6 == 0 || x6 == 0x0400) && (x7 == 0 || x7 == 0x0200) && (x8 == 0 || x8 == 0x0100) && (x9 == 0 || x9 == 0x0080) && (x10 == 0 || x10 == 0x0040) && (x11 == 0 || x11 == 0x0020) && (x12 == 0 || x12 == 0x0010) && (x13 == 0 || x13 == 0x0008),
    ;
}

/// A flags word whose three low bits are exactly the end-of-list bit is the
/// sum of its presence-bit masks plus one.
pub proof fn lemma_flags_decompose(flags: u16)
    requires
        flags % 8 == 1,
    ensures
        flags as int == (if (flags / 0x8000) % 2 == 1 { 0x8000 as int } else { 0 })
            + (if (flags / 0x4000) % 2 == 1 { 0x4000 as int } else { 0 })
            + (if (flags / 0x2000) % 2 == 1 { 0x2000 as int } else { 0 })
            + (if (flags / 0x1000) % 2 == 1 { 0x1000 as int } else { 0 })
            + (if (flags / 0x0800) % 2 == 1 { 0x0800 as int } else { 0 })
            + (if (flags / 0x0400) % 2 == 1 { 0x0400 as int } else { 0 })
            + (if (flags / 0x0200) % 2 == 1 { 0x0200 as int } else { 0 })
            + (if (flags / 0x0100) % 2 == 1 { 0x0100 as int } else { 0 })
            + (if (flags / 0x0080) % 2 == 1 { 0x0080 as int } else { 0 })
            + (if (flags / 0x0040) % 2 == 1 { 0x0040 as int } else { 0 })
            + (if (flags / 0x0020) % 2 == 1 { 0x0020 as int } else { 0 })
            + (if (flags / 0x0010) % 2 == 1 { 0x0010 as int } else { 0 })
            + (if (flags / 0x0008) % 2 == 1 { 0x0008 as int } else { 0 }) + 1,
{
    assert(flags as int == (if (flags / 0x8000) % 2 == 1 { 0x8000 as int } else { 0 })
        + (if (flags / 0x4000) % 2 == 1 { 0x4000 as int } else { 0 })
        + (if (flags / 0x2000) % 2 == 1 { 0x2000 as int } else { 0 })
        + (if (flags / 0x1000) % 2 == 1 { 0x1000 as int } else { 0 })
        + (if (flags / 0x0800) % 2 == 1 { 0x0800 as int } else { 0 })
        + (if (flags / 0x0400) % 2 == 1 { 0x0400 as int } else { 0 })
        + (if (flags / 0x0200) % 2 == 1 { 0x0200 as int } else { 0 })
        + (if (flags / 0x0100) % 2 == 1 { 0x0100 as int } else { 0 })
        + (if (flags / 0x0080) % 2 == 1 { 0x0080 as int } else { 0 })
        + (if (flags / 0x0040) % 2 == 1 { 0x0040 as int } else { 0 })
        + (if (flags / 0x0020) % 2 == 1 { 0x0020 as int } else { 0 })
        + (if (flags / 0x0010) % 2 == 1 { 0x0010 as int } else { 0 })
        + (if (flags / 0x0008) % 2 == 1 { 0x0008 as int } else { 0 }) + 1) by (bit_vector)
        requires
            flags % 8 == 1,
    ;
}

} // verus!
