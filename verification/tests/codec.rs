use amqp_codec::Codec;
use amqp_codec::args::{AmqpString, FieldArgument, FieldTable};
use amqp_codec::errors::DecodeError;
use amqp_codec::frame::content_body::ContentBodyPayload;
use amqp_codec::frame::content_header::{
    decode_payload as decode_header, encode_payload as encode_header, ContentHeaderPayload,
    Properties,
};
use amqp_codec::frame::method::basic::PublishMethod;
use amqp_codec::frame::method::{BasicClass, MethodPayload, TxClass};
use amqp_codec::frame::{Frame, FramePayload};

fn publish_frame() -> Frame {
    Frame::new_method(
        1,
        MethodPayload::Basic(BasicClass::Publish(PublishMethod {
            reserved1: 0,
            exchange: AmqpString::from_str("ex"),
            routing_key: AmqpString::from_str("rk"),
            mandatory: true,
            immediate: false,
        })),
    )
}

#[test]
fn encode_and_decode_without_properties() {
    let payload = ContentHeaderPayload {
        class_id: 42,
        body_size: 10000,
        properties: Properties::new(),
    };
    let encoded = encode_header(payload).unwrap();
    let decoded = decode_header(&encoded).unwrap();
    let expected = ContentHeaderPayload {
        class_id: 42,
        body_size: 10000,
        properties: Properties::new(),
    };
    assert_eq!(decoded, expected);
}

#[test]
fn encode_and_decode_with_properties() {
    let mut properties = Properties::new();
    properties.content_type = Some(AmqpString::from_str("application/text"));
    properties.priority = Some(42);
    let payload = ContentHeaderPayload {
        class_id: 42,
        body_size: 10000,
        properties,
    };
    let encoded = encode_header(payload).unwrap();
    let decoded = decode_header(&encoded).unwrap();
    let mut expected_props = Properties::new();
    expected_props.content_type = Some(AmqpString::from_str("application/text"));
    expected_props.priority = Some(42);
    let expected = ContentHeaderPayload {
        class_id: 42,
        body_size: 10000,
        properties: expected_props,
    };
    assert_eq!(decoded, expected);
}

#[test]
fn heartbeat_round_trip() {
    let mut buf: Vec<u8> = Vec::new();
    Codec::encode(Frame::new_heartbeat(0), &mut buf).unwrap();
    assert_eq!(buf, vec![0x08, 0x00, 0x00, 0x00, 0x00, 0x00, 0x00, 0xCE]);
    let decoded = Codec::decode(&mut buf).unwrap().unwrap();
    assert_eq!(decoded, Frame::new_heartbeat(0));
    assert_eq!(buf.len(), 0);
}

#[test]
fn heartbeat_type_four_accepted() {
    let mut buf = vec![0x04, 0x00, 0x00, 0x00, 0x00, 0x00, 0x00, 0xCE];
    let decoded = Codec::decode(&mut buf).unwrap().unwrap();
    assert_eq!(decoded, Frame::new_heartbeat(0));
}

#[test]
fn basic_publish_bytes() {
    let mut buf: Vec<u8> = Vec::new();
    Codec::encode(publish_frame(), &mut buf).unwrap();
    let mut expected = vec![0x01, 0x00, 0x01, 0x00, 0x00, 0x00, 0x0D];
    expected.extend_from_slice(&[0x00, 0x3C, 0x00, 0x28, 0x00, 0x00]);
    expected.extend_from_slice(&[0x02, b'e', b'x', 0x02, b'r', b'k', 0x01]);
    expected.push(0xCE);
    assert_eq!(buf, expected);
    let decoded = Codec::decode(&mut buf).unwrap().unwrap();
    assert_eq!(decoded, publish_frame());
}

#[test]
fn content_header_no_properties_bytes() {
    let payload = ContentHeaderPayload {
        class_id: 60,
        body_size: 10000,
        properties: Properties::new(),
    };
    let encoded = encode_header(payload).unwrap();
    assert_eq!(
        encoded,
        vec![
            0x00, 0x3C, 0x00, 0x00, 0x00, 0x00, 0x00, 0x00, 0x00, 0x00, 0x27, 0x10, 0x00, 0x01
        ]
    );
}

#[test]
fn content_header_two_properties_bytes() {
    let mut properties = Properties::new();
    properties.content_type = Some(AmqpString::from_str("application/text"));
    properties.priority = Some(42);
    let payload = ContentHeaderPayload {
        class_id: 60,
        body_size: 10000,
        properties,
    };
    let encoded = encode_header(payload).unwrap();
    let mut expected = vec![
        0x00, 0x3C, 0x00, 0x00, 0x00, 0x00, 0x00, 0x00, 0x00, 0x00, 0x27, 0x10, 0x88, 0x01,
    ];
    expected.push(0x10);
    expected.extend_from_slice(b"application/text");
    expected.push(0x2A);
    assert_eq!(encoded, expected);
}

#[test]
fn nested_field_table_round_trip() {
    let inner = FieldTable(vec![(
        AmqpString::from_str("inner"),
        FieldArgument::LongString(AmqpString::from_str("x")),
    )]);
    let table = FieldTable(vec![(
        AmqpString::from_str("outer"),
        FieldArgument::NestedTable(inner),
    )]);
    let mut buf: Vec<u8> = Vec::new();
    amqp_codec::args::encode_field_table(&table, &mut buf).unwrap();
    // outer length prefix covers exactly the body that follows
    let outer_len =
        u32::from_be_bytes([buf[0], buf[1], buf[2], buf[3]]) as usize;
    assert_eq!(outer_len, buf.len() - 4);
    let (decoded, consumed) = amqp_codec::args::decode_field_table(&buf, 0).unwrap();
    assert_eq!(consumed, buf.len());
    let inner2 = FieldTable(vec![(
        AmqpString::from_str("inner"),
        FieldArgument::LongString(AmqpString::from_str("x")),
    )]);
    let expected = FieldTable(vec![(
        AmqpString::from_str("outer"),
        FieldArgument::NestedTable(inner2),
    )]);
    assert_eq!(decoded, expected);
}

#[test]
fn field_table_supported_tags_round_trip() {
    let table = FieldTable(vec![
        (AmqpString::from_str("a"), FieldArgument::Boolean(true)),
        (AmqpString::from_str("b"), FieldArgument::SignedOctet(-5)),
        (AmqpString::from_str("c"), FieldArgument::UnsignedOctet(200)),
        (AmqpString::from_str("d"), FieldArgument::SignedShort(-300)),
        (AmqpString::from_str("e"), FieldArgument::UnsignedShort(40000)),
        (AmqpString::from_str("f"), FieldArgument::SignedLong(-70000)),
        (AmqpString::from_str("g"), FieldArgument::UnsignedLong(3000000000)),
        (AmqpString::from_str("h"), FieldArgument::SignedLongLong(-1)),
        (AmqpString::from_str("i"), FieldArgument::UnsignedLongLong(u64::MAX)),
        (AmqpString::from_str("j"), FieldArgument::Float(1.5f32.to_bits())),
        (AmqpString::from_str("k"), FieldArgument::Double(2.5f64.to_bits())),
        (AmqpString::from_str("l"), FieldArgument::Decimal(-42)),
        (AmqpString::from_str("m"), FieldArgument::ShortString(AmqpString::from_str("s"))),
        (AmqpString::from_str("n"), FieldArgument::LongString(AmqpString::from_str("L"))),
        (AmqpString::from_str("o"), FieldArgument::Timestamp(123456789)),
        (AmqpString::from_str("p"), FieldArgument::Void),
    ]);
    let mut buf: Vec<u8> = Vec::new();
    amqp_codec::args::encode_field_table(&table, &mut buf).unwrap();
    let (decoded, consumed) = amqp_codec::args::decode_field_table(&buf, 0).unwrap();
    assert_eq!(consumed, buf.len());
    assert_eq!(decoded.0.len(), 16);
    assert_eq!(decoded.0[9].1, FieldArgument::Float(1.5f32.to_bits()));
    assert_eq!(decoded.0[15].1, FieldArgument::Void);
}

#[test]
fn partial_frames_need_more() {
    let mut full: Vec<u8> = Vec::new();
    Codec::encode(publish_frame(), &mut full).unwrap();
    let n = full.len();
    for k in [0usize, 1, 7, n - 1] {
        let mut prefix: Vec<u8> = full[..k].to_vec();
        let before = prefix.clone();
        let r = Codec::decode(&mut prefix).unwrap();
        assert!(r.is_none());
        assert_eq!(prefix, before);
    }
}

#[test]
fn sentinel_mutation_is_refused() {
    let mut full: Vec<u8> = Vec::new();
    Codec::encode(publish_frame(), &mut full).unwrap();
    let n = full.len();
    for bad in [0x00u8, 0x01, 0xCF, 0xFF] {
        let mut mutated = full.clone();
        mutated[n - 1] = bad;
        let r = Codec::decode(&mut mutated);
        assert_eq!(r, Err(DecodeError::InvalidFrameEnd));
    }
}

#[test]
fn unknown_class_and_method_is_refused() {
    // frame: type 1, channel 0, size 4, payload = class 99, method 99
    let mut buf = vec![0x01, 0x00, 0x00, 0x00, 0x00, 0x00, 0x04, 0x00, 99, 0x00, 99, 0xCE];
    let r = Codec::decode(&mut buf);
    assert_eq!(r, Err(DecodeError::UnknownClassIdOrMethodId(99, 99)));
}

#[test]
fn unknown_field_tag_is_refused() {
    // table with one entry: key "k", tag 0x00
    let body = [0x01u8, b'k', 0x00];
    let mut buf = vec![0x00, 0x00, 0x00, 0x03];
    buf.extend_from_slice(&body);
    let r = amqp_codec::args::decode_field_table(&buf, 0);
    assert_eq!(r, Err(DecodeError::InvalidFieldArgumentTypeByte(0x00)));
}

#[test]
fn byte_array_tag_is_unsupported() {
    let body = [0x01u8, b'k', 0x78];
    let mut buf = vec![0x00, 0x00, 0x00, 0x03];
    buf.extend_from_slice(&body);
    let r = amqp_codec::args::decode_field_table(&buf, 0);
    assert_eq!(r, Err(DecodeError::UnsupportedFieldType(0x78)));
}

#[test]
fn invalid_utf8_string_is_refused() {
    // short string with one invalid byte 0xFF as a field value
    let body = [0x01u8, b'k', 0x73, 0x01, 0xFF];
    let mut buf = vec![0x00, 0x00, 0x00, 0x05];
    buf.extend_from_slice(&body);
    let r = amqp_codec::args::decode_field_table(&buf, 0);
    assert_eq!(r, Err(DecodeError::InvalidUtf8));
}

#[test]
fn invalid_frame_type_byte_is_refused() {
    let mut buf = vec![0x07, 0x00, 0x00, 0x00, 0x00, 0x00, 0x00, 0xCE];
    let r = Codec::decode(&mut buf);
    assert_eq!(r, Err(DecodeError::InvalidFrameTypeByte(0x07)));
}

#[test]
fn bit_packing_is_lsb_first() {
    assert_eq!(amqp_codec::methods::args::pack5(true, false, true, false, true), 0b10101);
    assert_eq!(amqp_codec::methods::args::pack2(true, false), 0b01);
    assert_eq!(amqp_codec::methods::args::pack2(false, true), 0b10);
    for k in 0..5u8 {
        let v = amqp_codec::methods::args::pack5(true, false, true, false, true);
        let expect = [true, false, true, false, true][k as usize];
        assert_eq!(amqp_codec::methods::args::unpack_bit(v, k), expect);
    }
}

#[test]
fn method_frames_round_trip() {
    let frames = [
        Frame::new_method(7, MethodPayload::Tx(TxClass::Select)),
        Frame::new_method(7, MethodPayload::Tx(TxClass::CommitOk)),
    ];
    for f in frames {
        let mut buf: Vec<u8> = Vec::new();
        Codec::encode(f, &mut buf).unwrap();
        let decoded = Codec::decode(&mut buf).unwrap().unwrap();
        assert!(decoded.method().is_some());
        assert_eq!(buf.len(), 0);
    }
}

#[test]
fn content_body_round_trip() {
    let f = Frame::new_content_body(3, ContentBodyPayload { bytes: vec![1, 2, 3, 4] });
    let mut buf: Vec<u8> = Vec::new();
    Codec::encode(f, &mut buf).unwrap();
    let decoded = Codec::decode(&mut buf).unwrap().unwrap();
    assert_eq!(
        decoded,
        Frame::new_content_body(3, ContentBodyPayload { bytes: vec![1, 2, 3, 4] })
    );
}

#[test]
fn oversized_short_string_is_not_encodable() {
    let long = "x".repeat(300);
    let table = FieldTable(vec![(
        AmqpString::from_str("k"),
        FieldArgument::ShortString(AmqpString::from_str(&long)),
    )]);
    let mut buf: Vec<u8> = Vec::new();
    let r = amqp_codec::args::encode_field_table(&table, &mut buf);
    assert!(r.is_err());
}

#[test]
fn byte_array_is_not_encodable() {
    let table = FieldTable(vec![(
        AmqpString::from_str("k"),
        FieldArgument::ByteArray(vec![1, 2]),
    )]);
    let mut buf: Vec<u8> = Vec::new();
    let r = amqp_codec::args::encode_field_table(&table, &mut buf);
    assert!(r.is_err());
}

#[test]
fn nonzero_weight_is_refused() {
    let payload = ContentHeaderPayload {
        class_id: 60,
        body_size: 0,
        properties: Properties::new(),
    };
    let mut encoded = encode_header(payload).unwrap();
    encoded[3] = 0x01;
    let r = decode_header(&encoded);
    assert_eq!(r, Err(DecodeError::InvalidContentHeader));
}

#[test]
fn stray_low_flag_bits_are_refused() {
    let payload = ContentHeaderPayload {
        class_id: 60,
        body_size: 0,
        properties: Properties::new(),
    };
    let mut encoded = encode_header(payload).unwrap();
    encoded[13] = 0x05;
    let r = decode_header(&encoded);
    assert_eq!(r, Err(DecodeError::InvalidContentHeader));
}

#[test]
fn bad_boolean_byte_is_refused() {
    // table with one entry: key "k", boolean tag, value byte 2
    let body = [0x01u8, b'k', 0x74, 0x02];
    let mut buf = vec![0x00, 0x00, 0x00, 0x04];
    buf.extend_from_slice(&body);
    let r = amqp_codec::args::decode_field_table(&buf, 0);
    assert_eq!(r, Err(DecodeError::InvalidBooleanByte(0x02)));
}

#[test]
fn content_header_frame_round_trip() {
    let mut properties = Properties::new();
    properties.reply_to = Some(AmqpString::from_str("rq"));
    properties.delivery_mode = Some(2);
    let f = Frame::new_content_header(
        5,
        ContentHeaderPayload { class_id: 60, body_size: 77, properties },
    );
    let mut buf: Vec<u8> = Vec::new();
    Codec::encode(f, &mut buf).unwrap();
    let decoded = Codec::decode(&mut buf).unwrap().unwrap();
    let mut expected_props = Properties::new();
    expected_props.reply_to = Some(AmqpString::from_str("rq"));
    expected_props.delivery_mode = Some(2);
    let expected = Frame::new_content_header(
        5,
        ContentHeaderPayload { class_id: 60, body_size: 77, properties: expected_props },
    );
    assert_eq!(decoded, expected);
    assert_eq!(buf.len(), 0);
}
