//! Frames: the unit of AMQP transport.

pub mod method;
pub mod content_header;
pub mod content_body;
pub mod heartbeat;
pub mod decoder;
pub mod encoder;

use vstd::prelude::*;

use crate::methods::args::ArgModel;
use crate::wire::{be16, be32, be32_val};
use self::method::MethodPayload;
use self::content_header::ContentHeaderPayload;
use self::content_body::ContentBodyPayload;

verus! {

/// The sentinel octet terminating every frame.
pub const FRAME_END_OCTET: u8 = 0xCE;

/// One frame: a channel and a typed payload.
#[derive(Debug, PartialEq)]
pub struct Frame {
    pub header: FrameHeader,
    pub payload: FramePayload,
}

/// The channel a frame travels on (0 for connection-level frames).
#[derive(Debug, PartialEq, Eq, Structural, Clone, Copy)]
pub struct FrameHeader {
    pub channel: u16,
}

/// The four frame types.
#[derive(Debug, PartialEq, Eq, Structural, Clone, Copy)]
pub enum FrameType {
    Method,
    ContentHeader,
    ContentBody,
    Heartbeat,
}

/// A frame payload, tagged by its frame type.
#[derive(Debug, PartialEq)]
pub enum FramePayload {
    Method(MethodPayload),
    ContentHeader(ContentHeaderPayload),
    ContentBody(ContentBodyPayload),
    Heartbeat,
}

/// The wire type byte of a payload (heartbeats are emitted as 8).
pub open spec fn type_byte(p: FramePayload) -> u8 {
    match p {
        FramePayload::Method(_) => 1,
        FramePayload::ContentHeader(_) => 2,
        FramePayload::ContentBody(_) => 3,
        FramePayload::Heartbeat => 8,
    }
}

/// The encoding of a frame payload.
pub open spec fn enc_payload(p: FramePayload) -> Seq<u8> {
    match p {
        FramePayload::Method(m) => method::enc_method(m),
        FramePayload::ContentHeader(h) => content_header::enc_header(
            h.class_id,
            h.body_size,
            h.properties,
        ),
        FramePayload::ContentBody(b) => b.bytes@,
        FramePayload::Heartbeat => Seq::empty(),
    }
}

/// A payload that can stand on the wire.
pub open spec fn wf_payload(p: FramePayload) -> bool {
    match p {
        FramePayload::Method(m) => method::wf_method(m),
        FramePayload::ContentHeader(h) => content_header::wf_props(h.properties),
        FramePayload::ContentBody(_) => true,
        FramePayload::Heartbeat => true,
    }
}

/// A frame that can stand on the wire: its payload is well formed and fits
/// the u32 size field.
pub open spec fn wf_frame(f: Frame) -> bool {
    wf_payload(f.payload) && enc_payload(f.payload).len() <= 0xFFFFFFFF
}

/// The encoding of a whole frame: type byte, channel, payload size, payload,
/// sentinel.
pub open spec fn enc_frame(f: Frame) -> Seq<u8> {
    seq![type_byte(f.payload)] + be16(f.header.channel) + be32(
        enc_payload(f.payload).len() as u32,
    ) + enc_payload(f.payload) + seq![FRAME_END_OCTET]
}

/// The abstract model of a payload: what its bytes carry.
pub enum PayloadModel {
    Method(u16, u16, Seq<ArgModel>),
    ContentHeader(u16, u64, u16, Seq<ArgModel>),
    ContentBody(Seq<u8>),
    Heartbeat,
}

pub open spec fn payload_model(p: FramePayload) -> PayloadModel {
    match p {
        FramePayload::Method(m) => {
            let (c, i, a) = method::method_model(m);
            PayloadModel::Method(c, i, a)
        },
        FramePayload::ContentHeader(h) => {
            let (c, s, fl, a) = content_header::header_model(h);
            PayloadModel::ContentHeader(c, s, fl, a)
        },
        FramePayload::ContentBody(b) => PayloadModel::ContentBody(b.bytes@),
        FramePayload::Heartbeat => PayloadModel::Heartbeat,
    }
}

/// The abstract model of a frame: its channel and what its payload carries.
pub open spec fn frame_model(f: Frame) -> (u16, PayloadModel) {
    (f.header.channel, payload_model(f.payload))
}

/// The buffer does not yet hold one complete frame.
pub open spec fn needs_more(b: Seq<u8>) -> bool {
    b.len() < 8 || b.len() < 8 + be32_val(b.subrange(3, 7))
}

impl Frame {
    pub fn new(channel: u16, payload: FramePayload) -> (r: Frame)
        ensures
            r.header.channel == channel,
            r.payload == payload,
    {
        Frame { header: FrameHeader { channel }, payload }
    }

    pub fn new_method(channel: u16, payload: MethodPayload) -> (r: Frame)
        ensures
            r.header.channel == channel,
            r.payload == FramePayload::Method(payload),
    {
        Frame::new(channel, FramePayload::Method(payload))
    }

    pub fn new_content_header(channel: u16, payload: ContentHeaderPayload) -> (r: Frame)
        ensures
            r.header.channel == channel,
            r.payload == FramePayload::ContentHeader(payload),
    {
        Frame::new(channel, FramePayload::ContentHeader(payload))
    }

    pub fn new_content_body(channel: u16, payload: ContentBodyPayload) -> (r: Frame)
        ensures
            r.header.channel == channel,
            r.payload == FramePayload::ContentBody(payload),
    {
        Frame::new(channel, FramePayload::ContentBody(payload))
    }

    pub fn new_heartbeat(channel: u16) -> (r: Frame)
        ensures
            r.header.channel == channel,
            r.payload == FramePayload::Heartbeat,
    {
        Frame::new(channel, FramePayload::Heartbeat)
    }

    pub fn method(&self) -> (r: Option<&MethodPayload>)
        ensures
            match r {
                Some(p) => self.payload == FramePayload::Method(*p),
                None => !(self.payload is Method),
            },
    {
        match &self.payload {
            FramePayload::Method(p) => Some(p),
            _ => None,
        }
    }

    pub fn content_header(&self) -> (r: Option<&ContentHeaderPayload>)
        ensures
            match r {
                Some(p) => self.payload == FramePayload::ContentHeader(*p),
                None => !(self.payload is ContentHeader),
            },
    {
        match &self.payload {
            FramePayload::ContentHeader(p) => Some(p),
            _ => None,
        }
    }

    pub fn content_body(&self) -> (r: Option<&ContentBodyPayload>)
        ensures
            match r {
                Some(p) => self.payload == FramePayload::ContentBody(*p),
                None => !(self.payload is ContentBody),
            },
    {
        match &self.payload {
            FramePayload::ContentBody(p) => Some(p),
            _ => None,
        }
    }

    pub fn heartbeat(&self) -> (r: Option<()>)
        ensures
            r is Some <==> self.payload is Heartbeat,
    {
        match &self.payload {
            FramePayload::Heartbeat => Some(()),
            _ => None,
        }
    }
}

} // verus!
