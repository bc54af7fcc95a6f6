//! Field-table values: the recursive, dynamically tagged grammar carried by
//! method arguments and content-header `headers` properties.
//!
//! A field table on the wire is a u32 length prefix giving the byte length of
//! the body, followed by `(name, tag, value)` entries until the body is
//! exhausted.  A table is modelled here as the sequence of its entries, so an
//! encode/decode round trip preserves entry order and duplicate keys exactly
//! as they stood.

use vstd::prelude::*;
use vstd::utf8::valid_utf8;
use vstd::string::{StringSliceAdditionalSpecFns, StrSliceExecFns};

use crate::errors::{DecodeError, EncodeError};
use crate::wire::{
    put_u8, put_u16, put_u32, put_u64, be16, be32, be64, be16_val, be32_val, be64_val, enc_sstr, enc_lstr, prefix_at, u8_of_i8,
    i8_of_u8, u16_of_i16, i16_of_u16, u32_of_i32, i32_of_u32, u64_of_i64, i64_of_u64,
};

verus! {

// ---------------------------------------------------------------------------
// Strings
// ---------------------------------------------------------------------------

/// A byte string that always holds valid UTF-8.
///
/// On the wire a string is raw bytes behind a length prefix; at the typed
/// boundary it must be UTF-8, and the decoder rejects anything else, so every
/// value of this type carries that guarantee as a type invariant.
#[derive(Debug, PartialEq, Eq, Hash)]
pub struct AmqpString {
    bytes: Vec<u8>,
}

impl View for AmqpString {
    type V = Seq<u8>;

    closed spec fn view(&self) -> Seq<u8> {
        self.bytes@
    }
}

/// Relies on `core::str::from_utf8`: it succeeds exactly on valid UTF-8
/// input, which is the notion vstd's `valid_utf8` captures (vstd requires
/// `valid_utf8` for `str::from_utf8_unchecked`).
#[verifier::external_body]
fn utf8_check(b: &[u8]) -> (r: bool)
    ensures
        r == valid_utf8(b@),
{
    core::str::from_utf8(b).is_ok()
}

impl AmqpString {
    #[verifier::type_invariant]
    pub open spec fn utf8_inv(self) -> bool {
        valid_utf8(self@)
    }

    /// Wrap the UTF-8 bytes of a string slice.
    pub fn from_str(s: &str) -> (r: AmqpString)
        ensures
            r@ == s.spec_bytes(),
    {
        let bytes = s.as_bytes_vec();
        proof {
            vstd::utf8::encode_utf8_valid_utf8(s@);
        }
        AmqpString { bytes }
    }

    /// Wrap raw bytes, succeeding exactly when they are valid UTF-8.
    pub fn from_bytes(v: Vec<u8>) -> (r: Result<AmqpString, DecodeError>)
        ensures
            match r {
                Ok(s) => valid_utf8(v@) && s@ == v@,
                Err(e) => !valid_utf8(v@) && e == DecodeError::InvalidUtf8,
            },
    {
        if utf8_check(v.as_slice()) {
            Ok(AmqpString { bytes: v })
        } else {
            Err(DecodeError::InvalidUtf8)
        }
    }

    pub fn len(&self) -> (n: usize)
        ensures
            n == self@.len(),
    {
        self.bytes.len()
    }

    pub fn as_bytes(&self) -> (r: &Vec<u8>)
        ensures
            r@ == self@,
    {
        &self.bytes
    }
}

impl Clone for AmqpString {
    fn clone(&self) -> (r: Self)
        ensures
            r@ == self@,
    {
        proof {
            use_type_invariant(self);
        }
        let mut bytes: Vec<u8> = Vec::new();
        crate::wire::push_all(&mut bytes, &self.bytes);
        AmqpString { bytes }
    }
}

// ---------------------------------------------------------------------------
// Field values
// ---------------------------------------------------------------------------

/// A dynamically tagged field value.
///
/// `Float` and `Double` carry the raw IEEE-754 bits of the value, which is
/// exactly what stands on the wire.  `Decimal` is a bare signed 64-bit
/// integer with no separate scale, for bit compatibility; the type is lossy.
/// `ByteArray` is recognized but has no defined wire layout, so encoding one
/// fails and the decoder refuses its tag.
#[derive(Debug, PartialEq)]
pub enum FieldArgument {
    Boolean(bool),
    SignedOctet(i8),
    UnsignedOctet(u8),
    SignedShort(i16),
    UnsignedShort(u16),
    SignedLong(i32),
    UnsignedLong(u32),
    SignedLongLong(i64),
    UnsignedLongLong(u64),
    Float(u32),
    Double(u64),
    Decimal(i64),
    ShortString(AmqpString),
    LongString(AmqpString),
    Timestamp(u64),
    NestedTable(FieldTable),
    Void,
    ByteArray(Vec<u8>),
}

/// A field table: the ordered sequence of its `(name, value)` entries.
#[derive(Debug, PartialEq)]
pub struct FieldTable(pub Vec<(AmqpString, FieldArgument)>);

// ---------------------------------------------------------------------------
// The abstract model: field values over plain sequences.
// ---------------------------------------------------------------------------

/// Spec-level model of a field value: strings and byte arrays become plain
/// byte sequences.
pub enum FieldModel {
    Boolean(bool),
    SignedOctet(i8),
    UnsignedOctet(u8),
    SignedShort(i16),
    UnsignedShort(u16),
    SignedLong(i32),
    UnsignedLong(u32),
    SignedLongLong(i64),
    UnsignedLongLong(u64),
    Float(u32),
    Double(u64),
    Decimal(i64),
    ShortString(Seq<u8>),
    LongString(Seq<u8>),
    Timestamp(u64),
    NestedTable(Seq<(Seq<u8>, FieldModel)>),
    Void,
    ByteArray(Seq<u8>),
}

/// Spec-level model of a table: its entries as (key bytes, value model).
pub type TableModel = Seq<(Seq<u8>, FieldModel)>;

pub open spec fn field_model(v: FieldArgument) -> FieldModel
    decreases v,
{
    match v {
        FieldArgument::Boolean(b) => FieldModel::Boolean(b),
        FieldArgument::SignedOctet(x) => FieldModel::SignedOctet(x),
        FieldArgument::UnsignedOctet(x) => FieldModel::UnsignedOctet(x),
        FieldArgument::SignedShort(x) => FieldModel::SignedShort(x),
        FieldArgument::UnsignedShort(x) => FieldModel::UnsignedShort(x),
        FieldArgument::SignedLong(x) => FieldModel::SignedLong(x),
        FieldArgument::UnsignedLong(x) => FieldModel::UnsignedLong(x),
        FieldArgument::SignedLongLong(x) => FieldModel::SignedLongLong(x),
        FieldArgument::UnsignedLongLong(x) => FieldModel::UnsignedLongLong(x),
        FieldArgument::Float(x) => FieldModel::Float(x),
        FieldArgument::Double(x) => FieldModel::Double(x),
        FieldArgument::Decimal(x) => FieldModel::Decimal(x),
        FieldArgument::ShortString(s) => FieldModel::ShortString(s@),
        FieldArgument::LongString(s) => FieldModel::LongString(s@),
        FieldArgument::Timestamp(x) => FieldModel::Timestamp(x),
        FieldArgument::NestedTable(t) => FieldModel::NestedTable(table_model(t.0@)),
        FieldArgument::Void => FieldModel::Void,
        FieldArgument::ByteArray(bs) => FieldModel::ByteArray(bs@),
    }
}

pub open spec fn table_model(entries: Seq<(AmqpString, FieldArgument)>) -> TableModel
    decreases entries,
{
    if entries.len() == 0 {
        Seq::empty()
    } else {
        seq![(entries[0].0@, field_model(entries[0].1))] + table_model(
            entries.subrange(1, entries.len() as int),
        )
    }
}

// ---------------------------------------------------------------------------
// The wire form of a field value.
// ---------------------------------------------------------------------------

/// The one-byte type tag of a field value.
pub open spec fn field_tag(m: FieldModel) -> u8 {
    match m {
        FieldModel::Boolean(_) => 0x74,
        FieldModel::SignedOctet(_) => 0x62,
        FieldModel::UnsignedOctet(_) => 0x42,
        FieldModel::SignedShort(_) => 0x55,
        FieldModel::UnsignedShort(_) => 0x75,
        FieldModel::SignedLong(_) => 0x49,
        FieldModel::UnsignedLong(_) => 0x69,
        FieldModel::SignedLongLong(_) => 0x4C,
        FieldModel::UnsignedLongLong(_) => 0x6C,
        FieldModel::Float(_) => 0x66,
        FieldModel::Double(_) => 0x63,
        FieldModel::Decimal(_) => 0x44,
        FieldModel::ShortString(_) => 0x73,
        FieldModel::LongString(_) => 0x53,
        FieldModel::Timestamp(_) => 0x54,
        FieldModel::NestedTable(_) => 0x46,
        FieldModel::Void => 0x56,
        FieldModel::ByteArray(_) => 0x78,
    }
}

/// The encoding of a field value: its tag byte followed by the tag-specific
/// body.
pub open spec fn enc_field(m: FieldModel) -> Seq<u8>
    decreases m,
{
    seq![field_tag(m)] + match m {
        FieldModel::Boolean(b) => seq![if b { 1u8 } else { 0u8 }],
        FieldModel::SignedOctet(x) => seq![u8_of_i8(x)],
        FieldModel::UnsignedOctet(x) => seq![x],
        FieldModel::SignedShort(x) => be16(u16_of_i16(x)),
        FieldModel::UnsignedShort(x) => be16(x),
        FieldModel::SignedLong(x) => be32(u32_of_i32(x)),
        FieldModel::UnsignedLong(x) => be32(x),
        FieldModel::SignedLongLong(x) => be64(u64_of_i64(x)),
        FieldModel::UnsignedLongLong(x) => be64(x),
        FieldModel::Float(x) => be32(x),
        FieldModel::Double(x) => be64(x),
        FieldModel::Decimal(x) => be64(u64_of_i64(x)),
        FieldModel::ShortString(s) => enc_sstr(s),
        FieldModel::LongString(s) => enc_lstr(s),
        FieldModel::Timestamp(x) => be64(x),
        FieldModel::NestedTable(t) => be32(enc_tbody(t).len() as u32) + enc_tbody(t),
        FieldModel::Void => Seq::empty(),
        FieldModel::ByteArray(_) => Seq::empty(),
    }
}

/// The encoding of a table body: the entry encodings in order.
pub open spec fn enc_tbody(t: TableModel) -> Seq<u8>
    decreases t,
{
    if t.len() == 0 {
        Seq::empty()
    } else {
        enc_sstr(t[0].0) + enc_field(t[0].1) + enc_tbody(t.subrange(1, t.len() as int))
    }
}

/// The encoding of a whole table: the u32 body length, then the body.
pub open spec fn enc_table(t: TableModel) -> Seq<u8> {
    be32(enc_tbody(t).len() as u32) + enc_tbody(t)
}

// ---------------------------------------------------------------------------
// Well-formedness: what the wire format can carry.
// ---------------------------------------------------------------------------

/// A field value that can stand on the wire: strings fit their length
/// prefixes and are UTF-8, nested tables are themselves well formed, and the
/// byte-array variant (whose layout is undefined) is excluded.
pub open spec fn wf_field(m: FieldModel) -> bool
    decreases m,
{
    match m {
        FieldModel::ShortString(s) => s.len() <= 255 && valid_utf8(s),
        FieldModel::LongString(s) => s.len() <= 0xFFFFFFFF && valid_utf8(s),
        FieldModel::NestedTable(t) => wf_entries(t) && enc_tbody(t).len() <= 0xFFFFFFFF,
        FieldModel::ByteArray(_) => false,
        _ => true,
    }
}

/// Every entry has a short-string key and a well-formed value.
pub open spec fn wf_entries(t: TableModel) -> bool
    decreases t,
{
    t.len() == 0 || (t[0].0.len() <= 255 && valid_utf8(t[0].0) && wf_field(t[0].1) && wf_entries(
        t.subrange(1, t.len() as int),
    ))
}

/// A table that can stand on the wire: well-formed entries whose encoded body
/// fits the u32 length prefix.
pub open spec fn wf_table(t: TableModel) -> bool {
    wf_entries(t) && enc_tbody(t).len() <= 0xFFFFFFFF
}

/// The length of the tag-specific body of a field value.
pub open spec fn field_body_len(m: FieldModel) -> int {
    match m {
        FieldModel::Boolean(_) => 1int,
        FieldModel::SignedOctet(_) => 1int,
        FieldModel::UnsignedOctet(_) => 1int,
        FieldModel::SignedShort(_) => 2int,
        FieldModel::UnsignedShort(_) => 2int,
        FieldModel::SignedLong(_) => 4int,
        FieldModel::UnsignedLong(_) => 4int,
        FieldModel::SignedLongLong(_) => 8int,
        FieldModel::UnsignedLongLong(_) => 8int,
        FieldModel::Float(_) => 4int,
        FieldModel::Double(_) => 8int,
        FieldModel::Decimal(_) => 8int,
        FieldModel::ShortString(s) => 1 + s.len() as int,
        FieldModel::LongString(s) => 4 + s.len() as int,
        FieldModel::Timestamp(_) => 8int,
        FieldModel::NestedTable(t) => 4 + enc_tbody(t).len() as int,
        FieldModel::Void => 0int,
        FieldModel::ByteArray(_) => 0int,
    }
}

/// Shape of a field encoding: one tag byte, then `field_body_len` bytes.
pub proof fn lemma_enc_field_shape(m: FieldModel)
    ensures
        enc_field(m).len() == 1 + field_body_len(m),
        enc_field(m)[0] == field_tag(m),
{
}

/// The tag bytes the field grammar knows (including the reserved byte-array
/// tag, which is recognized but refused).
pub open spec fn recognized_tag(t: u8) -> bool {
    t == 0x74 || t == 0x62 || t == 0x42 || t == 0x55 || t == 0x75 || t == 0x49 || t == 0x69 || t
        == 0x4C || t == 0x6C || t == 0x66 || t == 0x63 || t == 0x44 || t == 0x73 || t == 0x53 || t
        == 0x54 || t == 0x46 || t == 0x56 || t == 0x78
}

/// The body length of the fixed-size tags.
pub open spec fn fixed_len_of(t: u8) -> Option<int> {
    if t == 0x74 || t == 0x62 || t == 0x42 {
        Some(1int)
    } else if t == 0x55 || t == 0x75 {
        Some(2int)
    } else if t == 0x49 || t == 0x69 || t == 0x66 {
        Some(4int)
    } else if t == 0x4C || t == 0x6C || t == 0x63 || t == 0x44 || t == 0x54 {
        Some(8int)
    } else {
        None
    }
}

/// The error kinds the field codec surfaces.
pub open spec fn field_error(e: DecodeError) -> bool {
    match e {
        DecodeError::PayloadTruncated => true,
        DecodeError::InvalidFieldArgumentTypeByte(_) => true,
        DecodeError::UnsupportedFieldType(_) => true,
        DecodeError::InvalidUtf8 => true,
        DecodeError::InvalidBooleanByte(_) => true,
        _ => false,
    }
}

// ---------------------------------------------------------------------------
// Structural lemmas about table models.
// ---------------------------------------------------------------------------

/// `table_model` is the pointwise model of the entries.
pub proof fn lemma_table_model(s: Seq<(AmqpString, FieldArgument)>)
    ensures
        table_model(s).len() == s.len(),
        forall|i: int| 0 <= i < s.len()
            ==> #[trigger] table_model(s)[i] == (s[i].0@, field_model(s[i].1)),
    decreases s.len(),
{
    if s.len() > 0 {
        lemma_table_model(s.subrange(1, s.len() as int));
        assert(forall|i: int| 0 <= i < s.len() ==> #[trigger] table_model(s)[i] == (
        s[i].0@,
        field_model(s[i].1),
        )) by {
            assert(forall|i: int| 1 <= i < s.len()
                ==> s.subrange(1, s.len() as int)[i - 1] == s[i]);
            assert(forall|i: int| 1 <= i < s.len() ==> table_model(s)[i] == table_model(
                s.subrange(1, s.len() as int),
            )[i - 1]);
        }
    }
}

/// Appending one entry appends its encoding.
pub proof fn lemma_enc_tbody_snoc(t: TableModel, e: (Seq<u8>, FieldModel))
    ensures
        enc_tbody(t.push(e)) == enc_tbody(t) + enc_sstr(e.0) + enc_field(e.1),
    decreases t.len(),
{
    let t2 = t.push(e);
    if t.len() == 0 {
        assert(t2.subrange(1, t2.len() as int) =~= Seq::<(Seq<u8>, FieldModel)>::empty());
        assert(t2[0] == e);
        assert(enc_tbody(t2) == enc_sstr(e.0) + enc_field(e.1) + enc_tbody(
            t2.subrange(1, t2.len() as int),
        ));
        assert(enc_tbody(t2.subrange(1, t2.len() as int)) == Seq::<u8>::empty());
        assert(enc_tbody(t2) =~= enc_tbody(t) + enc_sstr(e.0) + enc_field(e.1));
    } else {
        let tail = t.subrange(1, t.len() as int);
        assert(t2.subrange(1, t2.len() as int) =~= tail.push(e));
        lemma_enc_tbody_snoc(tail, e);
        assert(t2[0] == t[0]);
        let a = enc_sstr(t[0].0);
        let b2 = enc_field(t[0].1);
        let c = enc_tbody(tail);
        let d = enc_sstr(e.0);
        let f = enc_field(e.1);
        assert(enc_tbody(t2) == (a + b2) + ((c + d) + f));
        lemma_assoc(a + b2, c, d);
        lemma_assoc(a + b2, c + d, f);
        assert(enc_tbody(t2) == enc_tbody(t) + enc_sstr(e.0) + enc_field(e.1));
    }
}

/// Appending a well-formed entry keeps the entries well formed.
pub proof fn lemma_wf_entries_snoc(t: TableModel, e: (Seq<u8>, FieldModel))
    requires
        wf_entries(t),
        e.0.len() <= 255,
        valid_utf8(e.0),
        wf_field(e.1),
    ensures
        wf_entries(t.push(e)),
    decreases t.len(),
{
    let t2 = t.push(e);
    if t.len() == 0 {
        assert(t2.subrange(1, t2.len() as int) =~= Seq::<(Seq<u8>, FieldModel)>::empty());
        assert(t2[0] == e);
        assert(wf_entries(Seq::<(Seq<u8>, FieldModel)>::empty()));
        assert(wf_entries(t2.subrange(1, t2.len() as int)));
    } else {
        let tail = t.subrange(1, t.len() as int);
        assert(t2.subrange(1, t2.len() as int) =~= tail.push(e));
        lemma_wf_entries_snoc(tail, e);
        assert(t2[0] == t[0]);
        assert(wf_entries(t2.subrange(1, t2.len() as int)));
    }
}

/// Every entry of a well-formed entry sequence is well formed.
pub proof fn lemma_wf_entries_index(t: TableModel, i: int)
    requires
        wf_entries(t),
        0 <= i < t.len(),
    ensures
        t[i].0.len() <= 255,
        valid_utf8(t[i].0),
        wf_field(t[i].1),
    decreases i,
{
    if i > 0 {
        let tail = t.subrange(1, t.len() as int);
        lemma_wf_entries_index(tail, i - 1);
        assert(tail[i - 1] == t[i]);
    }
}

// ---------------------------------------------------------------------------
// Uniqueness: an encoding standing at a position determines the value.
// ---------------------------------------------------------------------------

proof fn lemma_assoc(x: Seq<u8>, y: Seq<u8>, z: Seq<u8>)
    ensures
        (x + y) + z == x + (y + z),
{
    assert((x + y) + z =~= x + (y + z));
}

/// A field-value encoding followed by arbitrary bytes determines the value
/// and the following bytes.
pub proof fn lemma_field_prefix(m1: FieldModel, m2: FieldModel, r1: Seq<u8>, r2: Seq<u8>)
    requires
        wf_field(m1),
        wf_field(m2),
        enc_field(m1) + r1 == enc_field(m2) + r2,
    ensures
        m1 == m2,
        r1 == r2,
    decreases m1,
{
    lemma_enc_field_shape(m1);
    lemma_enc_field_shape(m2);
    let a = enc_field(m1) + r1;
    assert(a[0] == field_tag(m1) && a[0] == field_tag(m2));
    match (m1, m2) {
        (FieldModel::Boolean(x1), FieldModel::Boolean(x2)) => {
            let p1 = seq![if x1 { 1u8 } else { 0u8 }];
            let p2 = seq![if x2 { 1u8 } else { 0u8 }];
            peel_fixed(m1, m2, p1, p2, r1, r2);
            assert(p1[0] == p2[0]);
        },
        (FieldModel::SignedOctet(x1), FieldModel::SignedOctet(x2)) => {
            peel_fixed(m1, m2, seq![u8_of_i8(x1)], seq![u8_of_i8(x2)], r1, r2);
            assert(seq![u8_of_i8(x1)][0] == seq![u8_of_i8(x2)][0]);
        },
        (FieldModel::UnsignedOctet(x1), FieldModel::UnsignedOctet(x2)) => {
            peel_fixed(m1, m2, seq![x1], seq![x2], r1, r2);
            assert(seq![x1][0] == seq![x2][0]);
        },
        (FieldModel::SignedShort(x1), FieldModel::SignedShort(x2)) => {
            peel_fixed(m1, m2, be16(u16_of_i16(x1)), be16(u16_of_i16(x2)), r1, r2);
            crate::wire::lemma_be16_inj(u16_of_i16(x1), u16_of_i16(x2));
            crate::wire::lemma_i16_bits(x1);
            crate::wire::lemma_i16_bits(x2);
        },
        (FieldModel::UnsignedShort(x1), FieldModel::UnsignedShort(x2)) => {
            peel_fixed(m1, m2, be16(x1), be16(x2), r1, r2);
            crate::wire::lemma_be16_inj(x1, x2);
        },
        (FieldModel::SignedLong(x1), FieldModel::SignedLong(x2)) => {
            peel_fixed(m1, m2, be32(u32_of_i32(x1)), be32(u32_of_i32(x2)), r1, r2);
            crate::wire::lemma_be32_inj(u32_of_i32(x1), u32_of_i32(x2));
            crate::wire::lemma_i32_bits(x1);
            crate::wire::lemma_i32_bits(x2);
        },
        (FieldModel::UnsignedLong(x1), FieldModel::UnsignedLong(x2)) => {
            peel_fixed(m1, m2, be32(x1), be32(x2), r1, r2);
            crate::wire::lemma_be32_inj(x1, x2);
        },
        (FieldModel::SignedLongLong(x1), FieldModel::SignedLongLong(x2)) => {
            peel_fixed(m1, m2, be64(u64_of_i64(x1)), be64(u64_of_i64(x2)), r1, r2);
            crate::wire::lemma_be64_inj(u64_of_i64(x1), u64_of_i64(x2));
            crate::wire::lemma_i64_bits(x1);
            crate::wire::lemma_i64_bits(x2);
        },
        (FieldModel::UnsignedLongLong(x1), FieldModel::UnsignedLongLong(x2)) => {
            peel_fixed(m1, m2, be64(x1), be64(x2), r1, r2);
            crate::wire::lemma_be64_inj(x1, x2);
        },
        (FieldModel::Float(x1), FieldModel::Float(x2)) => {
            peel_fixed(m1, m2, be32(x1), be32(x2), r1, r2);
            crate::wire::lemma_be32_inj(x1, x2);
        },
        (FieldModel::Double(x1), FieldModel::Double(x2)) => {
            peel_fixed(m1, m2, be64(x1), be64(x2), r1, r2);
            crate::wire::lemma_be64_inj(x1, x2);
        },
        (FieldModel::Decimal(x1), FieldModel::Decimal(x2)) => {
            peel_fixed(m1, m2, be64(u64_of_i64(x1)), be64(u64_of_i64(x2)), r1, r2);
            crate::wire::lemma_be64_inj(u64_of_i64(x1), u64_of_i64(x2));
            crate::wire::lemma_i64_bits(x1);
            crate::wire::lemma_i64_bits(x2);
        },
        (FieldModel::ShortString(s1), FieldModel::ShortString(s2)) => {
            lemma_assoc(seq![field_tag(m1)], enc_sstr(s1), r1);
            lemma_assoc(seq![field_tag(m2)], enc_sstr(s2), r2);
            crate::wire::lemma_concat_split(
                seq![field_tag(m1)],
                enc_sstr(s1) + r1,
                seq![field_tag(m2)],
                enc_sstr(s2) + r2,
            );
            crate::wire::lemma_sstr_prefix(s1, s2, r1, r2);
        },
        (FieldModel::LongString(s1), FieldModel::LongString(s2)) => {
            lemma_assoc(seq![field_tag(m1)], enc_lstr(s1), r1);
            lemma_assoc(seq![field_tag(m2)], enc_lstr(s2), r2);
            crate::wire::lemma_concat_split(
                seq![field_tag(m1)],
                enc_lstr(s1) + r1,
                seq![field_tag(m2)],
                enc_lstr(s2) + r2,
            );
            crate::wire::lemma_lstr_prefix(s1, s2, r1, r2);
        },
        (FieldModel::Timestamp(x1), FieldModel::Timestamp(x2)) => {
            peel_fixed(m1, m2, be64(x1), be64(x2), r1, r2);
            crate::wire::lemma_be64_inj(x1, x2);
        },
        (FieldModel::NestedTable(t1), FieldModel::NestedTable(t2)) => {
            let l1 = enc_tbody(t1).len() as u32;
            let l2 = enc_tbody(t2).len() as u32;
            assert(enc_field(m1) =~= seq![field_tag(m1)] + (be32(l1) + enc_tbody(t1)));
            assert(enc_field(m2) =~= seq![field_tag(m2)] + (be32(l2) + enc_tbody(t2)));
            lemma_assoc(seq![field_tag(m1)], be32(l1) + enc_tbody(t1), r1);
            lemma_assoc(seq![field_tag(m2)], be32(l2) + enc_tbody(t2), r2);
            crate::wire::lemma_concat_split(
                seq![field_tag(m1)],
                (be32(l1) + enc_tbody(t1)) + r1,
                seq![field_tag(m2)],
                (be32(l2) + enc_tbody(t2)) + r2,
            );
            lemma_assoc(be32(l1), enc_tbody(t1), r1);
            lemma_assoc(be32(l2), enc_tbody(t2), r2);
            crate::wire::lemma_concat_split(
                be32(l1),
                enc_tbody(t1) + r1,
                be32(l2),
                enc_tbody(t2) + r2,
            );
            crate::wire::lemma_be32_inj(l1, l2);
            assert(enc_tbody(t1).len() == enc_tbody(t2).len());
            crate::wire::lemma_concat_split(enc_tbody(t1), r1, enc_tbody(t2), r2);
            lemma_tbody_exact(t1, t2);
        },
        (FieldModel::Void, FieldModel::Void) => {
            assert(enc_field(m1).len() == 1 && enc_field(m2).len() == 1);
            assert(a.len() == (enc_field(m2) + r2).len());
            assert(r1.len() == r2.len());
            assert(r1 =~= r2) by {
                assert(forall|i: int| 0 <= i < r1.len() ==> r1[i] == a[1 + i]);
                assert(forall|i: int| 0 <= i < r2.len() ==> r2[i] == (enc_field(m2) + r2)[1 + i]);
            }
        },
        _ => {
            assert(false);
        },
    }
}

/// Peel a fixed-size payload: tags match, payload lengths match, so payloads
/// and rests match.
proof fn peel_fixed(
    m1: FieldModel,
    m2: FieldModel,
    p1: Seq<u8>,
    p2: Seq<u8>,
    r1: Seq<u8>,
    r2: Seq<u8>,
)
    requires
        enc_field(m1) == seq![field_tag(m1)] + p1,
        enc_field(m2) == seq![field_tag(m2)] + p2,
        field_tag(m1) == field_tag(m2),
        p1.len() == p2.len(),
        enc_field(m1) + r1 == enc_field(m2) + r2,
    ensures
        p1 == p2,
        r1 == r2,
{
    lemma_assoc(seq![field_tag(m1)], p1, r1);
    lemma_assoc(seq![field_tag(m2)], p2, r2);
    crate::wire::lemma_concat_split(seq![field_tag(m1)], p1 + r1, seq![field_tag(m2)], p2 + r2);
    crate::wire::lemma_concat_split(p1, r1, p2, r2);
}

/// Equal table-body encodings come from equal entry sequences.
pub proof fn lemma_tbody_exact(t1: TableModel, t2: TableModel)
    requires
        wf_entries(t1),
        wf_entries(t2),
        enc_tbody(t1) == enc_tbody(t2),
    ensures
        t1 == t2,
    decreases t1,
{
    if t1.len() == 0 {
        if t2.len() > 0 {
            assert(enc_tbody(t2).len() >= enc_sstr(t2[0].0).len());
            assert(enc_sstr(t2[0].0).len() >= 1);
        }
        assert(t1 =~= t2);
    } else {
        if t2.len() == 0 {
            assert(enc_tbody(t1).len() >= enc_sstr(t1[0].0).len());
            assert(enc_sstr(t1[0].0).len() >= 1);
        }
        let e1 = t1[0];
        let e2 = t2[0];
        let tail1 = t1.subrange(1, t1.len() as int);
        let tail2 = t2.subrange(1, t2.len() as int);
        lemma_assoc(enc_sstr(e1.0) + enc_field(e1.1), enc_tbody(tail1), Seq::empty());
        assert(enc_tbody(t1) == enc_sstr(e1.0) + enc_field(e1.1) + enc_tbody(tail1));
        assert(enc_tbody(t2) == enc_sstr(e2.0) + enc_field(e2.1) + enc_tbody(tail2));
        lemma_assoc(enc_sstr(e1.0), enc_field(e1.1), enc_tbody(tail1));
        lemma_assoc(enc_sstr(e2.0), enc_field(e2.1), enc_tbody(tail2));
        assert(enc_sstr(e1.0) + (enc_field(e1.1) + enc_tbody(tail1)) == enc_sstr(e2.0) + (
        enc_field(e2.1) + enc_tbody(tail2)));
        crate::wire::lemma_sstr_prefix(
            e1.0,
            e2.0,
            enc_field(e1.1) + enc_tbody(tail1),
            enc_field(e2.1) + enc_tbody(tail2),
        );
        lemma_field_prefix(e1.1, e2.1, enc_tbody(tail1), enc_tbody(tail2));
        lemma_tbody_exact(tail1, tail2);
        assert(t1 =~= t2) by {
            assert(e1 == e2);
            assert(forall|i: int| 1 <= i < t1.len() ==> t1[i] == tail1[i - 1] && t2[i] == tail2[i
                - 1]);
        }
    }
}

/// Already-decoded entries line up with a leading segment of any full table
/// whose body extends them.
pub proof fn lemma_tbody_align(sofar: TableModel, rest: Seq<u8>, t: TableModel)
    requires
        wf_entries(sofar),
        wf_entries(t),
        enc_tbody(sofar) + rest == enc_tbody(t),
    ensures
        sofar.len() <= t.len(),
        sofar == t.subrange(0, sofar.len() as int),
        rest == enc_tbody(t.subrange(sofar.len() as int, t.len() as int)),
    decreases sofar,
{
    if sofar.len() == 0 {
        assert(sofar =~= t.subrange(0, 0));
        assert(t.subrange(0, t.len() as int) =~= t);
        assert(enc_tbody(sofar) + rest =~= rest);
    } else {
        if t.len() == 0 {
            assert(enc_tbody(sofar).len() >= enc_sstr(sofar[0].0).len());
            assert(enc_sstr(sofar[0].0).len() >= 1);
            assert((enc_tbody(sofar) + rest).len() >= 1);
            assert(false);
        }
        let e1 = sofar[0];
        let e2 = t[0];
        let tail1 = sofar.subrange(1, sofar.len() as int);
        let tail2 = t.subrange(1, t.len() as int);
        assert(enc_tbody(sofar) == enc_sstr(e1.0) + enc_field(e1.1) + enc_tbody(tail1));
        assert(enc_tbody(t) == enc_sstr(e2.0) + enc_field(e2.1) + enc_tbody(tail2));
        lemma_assoc(enc_sstr(e1.0) + enc_field(e1.1), enc_tbody(tail1), rest);
        lemma_assoc(enc_sstr(e1.0), enc_field(e1.1), enc_tbody(tail1) + rest);
        lemma_assoc(enc_sstr(e2.0), enc_field(e2.1), enc_tbody(tail2));
        assert(enc_sstr(e1.0) + (enc_field(e1.1) + (enc_tbody(tail1) + rest)) == enc_sstr(e2.0) + (
        enc_field(e2.1) + enc_tbody(tail2)));
        crate::wire::lemma_sstr_prefix(
            e1.0,
            e2.0,
            enc_field(e1.1) + (enc_tbody(tail1) + rest),
            enc_field(e2.1) + enc_tbody(tail2),
        );
        lemma_field_prefix(e1.1, e2.1, enc_tbody(tail1) + rest, enc_tbody(tail2));
        lemma_tbody_align(tail1, rest, tail2);
        assert(sofar =~= t.subrange(0, sofar.len() as int)) by {
            assert(e1 == e2);
            assert(forall|i: int| 1 <= i < sofar.len() ==> sofar[i] == tail1[i - 1]);
            assert(forall|i: int| 1 <= i < sofar.len()
                ==> t.subrange(0, sofar.len() as int)[i] == tail2[i - 1]);
        }
        assert(tail2.subrange(tail1.len() as int, tail2.len() as int) =~= t.subrange(
            sofar.len() as int,
            t.len() as int,
        ));
    }
}

// ---------------------------------------------------------------------------
// Completeness helpers: what the bytes look like under the hypothesis that a
// well-formed encoding sits at a position.
// ---------------------------------------------------------------------------

/// Under the hypothesis that a whole well-formed table encoding sits at
/// `pos`: the length prefix denotes the body length and the body follows.
pub(crate) proof fn lemma_table_header(b: Seq<u8>, pos: int, t: TableModel)
    requires
        wf_table(t),
        prefix_at(b, pos, enc_table(t)),
    ensures
        pos + 4 + enc_tbody(t).len() <= b.len(),
        b.subrange(pos, pos + 4) == be32(enc_tbody(t).len() as u32),
        be32_val(b.subrange(pos, pos + 4)) == enc_tbody(t).len(),
        b.subrange(pos + 4, pos + 4 + enc_tbody(t).len() as int) == enc_tbody(t),
{
    let lv = enc_tbody(t).len() as u32;
    let chunk = b.subrange(pos, pos + enc_table(t).len() as int);
    assert(enc_table(t).len() == 4 + enc_tbody(t).len());
    assert(b.subrange(pos, pos + 4) =~= be32(lv)) by {
        assert(forall|i: int| 0 <= i < 4 ==> chunk[i] == enc_table(t)[i]);
        assert(forall|i: int| 0 <= i < 4 ==> enc_table(t)[i] == be32(lv)[i]);
    }
    crate::wire::lemma_be32_val(lv);
    assert(b.subrange(pos + 4, pos + 4 + enc_tbody(t).len() as int) =~= enc_tbody(t)) by {
        assert(forall|i: int| 0 <= i < enc_tbody(t).len()
            ==> chunk[4 + i] == enc_table(t)[4 + i] && enc_table(t)[4 + i] == enc_tbody(t)[i]);
    }
}

/// Under the same hypothesis, with some entries already decoded: the next
/// entry of the full table sits exactly at the current position.
proof fn lemma_table_loop_facts(b: Seq<u8>, pos: int, cur: int, sofar: TableModel, t: TableModel)
    requires
        wf_table(t),
        prefix_at(b, pos, enc_table(t)),
        wf_entries(sofar),
        pos + 4 <= cur <= b.len(),
        b.subrange(pos + 4, cur) == enc_tbody(sofar),
        cur < pos + 4 + enc_tbody(t).len(),
    ensures
        ({
            let k = sofar.len() as int;
            let tend = pos + 4 + enc_tbody(t).len() as int;
            &&& k < t.len()
            &&& tend <= b.len()
            &&& t[k].0.len() <= 255
            &&& valid_utf8(t[k].0)
            &&& wf_field(t[k].1)
            &&& b[cur] == t[k].0.len() as u8
            &&& cur + 1 + t[k].0.len() + enc_field(t[k].1).len() <= tend
            &&& b.subrange(cur, cur + 1 + t[k].0.len() as int) == enc_sstr(t[k].0)
            &&& prefix_at(b, cur + 1 + t[k].0.len() as int, enc_field(t[k].1))
        }),
{
    lemma_table_header(b, pos, t);
    let tend = pos + 4 + enc_tbody(t).len() as int;
    let rest = b.subrange(cur, tend);
    crate::wire::lemma_subrange_concat(b, pos + 4, cur, tend);
    assert(enc_tbody(sofar) + rest == enc_tbody(t));
    lemma_tbody_align(sofar, rest, t);
    let k = sofar.len() as int;
    let suffix = t.subrange(k, t.len() as int);
    assert(rest == enc_tbody(suffix));
    assert(rest.len() > 0);
    assert(suffix.len() > 0);
    assert(k < t.len());
    let e = t[k];
    assert(suffix[0] == e);
    lemma_wf_entries_index(t, k);
    let skey = enc_sstr(e.0);
    let sval = enc_field(e.1);
    let tail = enc_tbody(suffix.subrange(1, suffix.len() as int));
    assert(rest == skey + sval + tail);
    lemma_enc_field_shape(e.1);
    assert(skey.len() == 1 + e.0.len());
    assert(rest.len() == skey.len() + sval.len() + tail.len());
    assert(forall|i: int| 0 <= i < rest.len() ==> rest[i] == b[cur + i]);
    assert(forall|i: int| 0 <= i < skey.len() ==> #[trigger] rest[i] == skey[i]);
    assert(b.subrange(cur, cur + 1 + e.0.len() as int) =~= skey);
    assert(b[cur] == skey[0]);
    assert(forall|i: int| 0 <= i < sval.len() ==> #[trigger] rest[skey.len() + i] == sval[i]);
    let kl = skey.len() as int;
    assert(forall|i: int| 0 <= i < sval.len() ==> #[trigger] sval[i] == rest[kl + i]);
    assert(forall|i: int| 0 <= i < sval.len() ==> #[trigger] b[cur + kl + i] == rest[kl + i]);
    assert(b.subrange(cur + kl, cur + kl + sval.len() as int) =~= sval);
    assert(cur + kl == cur + 1 + e.0.len());
    assert(b.subrange(cur + 1 + e.0.len() as int, cur + 1 + e.0.len() + sval.len() as int)
        == b.subrange(cur + kl, cur + kl + sval.len() as int));
}

// ---------------------------------------------------------------------------
// Exec: encoding.
// ---------------------------------------------------------------------------

/// Append the encoding of one field value.  Succeeds exactly when the value
/// can stand on the wire; on failure the destination is unchanged, and a
/// byte-array value (whose wire layout is undefined) is refused as
/// unsupported.
pub fn encode_field_value(v: &FieldArgument, dst: &mut Vec<u8>) -> (r: Result<(), EncodeError>)
    ensures
        r matches Ok(()) ==> wf_field(field_model(*v)) && final(dst)@ == old(dst)@ + enc_field(
            field_model(*v),
        ),
        r matches Err(e) ==> !wf_field(field_model(*v)) && final(dst)@ == old(dst)@ && (
        field_model(*v) is ByteArray ==> e == EncodeError::UnsupportedFieldType),
    decreases *v,
{
    match v {
        FieldArgument::Boolean(x) => {
            put_u8(dst, 0x74);
            put_u8(dst, if *x { 1 } else { 0 });
            proof {
                assert(dst@ =~= old(dst)@ + enc_field(field_model(*v)));
            }
            Ok(())
        },
        FieldArgument::SignedOctet(x) => {
            put_u8(dst, 0x62);
            put_u8(dst, crate::wire::to_u8_bits(*x));
            proof {
                assert(dst@ =~= old(dst)@ + enc_field(field_model(*v)));
            }
            Ok(())
        },
        FieldArgument::UnsignedOctet(x) => {
            put_u8(dst, 0x42);
            put_u8(dst, *x);
            proof {
                assert(dst@ =~= old(dst)@ + enc_field(field_model(*v)));
            }
            Ok(())
        },
        FieldArgument::SignedShort(x) => {
            put_u8(dst, 0x55);
            put_u16(dst, crate::wire::to_u16_bits(*x));
            proof {
                assert(dst@ =~= old(dst)@ + enc_field(field_model(*v)));
            }
            Ok(())
        },
        FieldArgument::UnsignedShort(x) => {
            put_u8(dst, 0x75);
            put_u16(dst, *x);
            proof {
                assert(dst@ =~= old(dst)@ + enc_field(field_model(*v)));
            }
            Ok(())
        },
        FieldArgument::SignedLong(x) => {
            put_u8(dst, 0x49);
            put_u32(dst, crate::wire::to_u32_bits(*x));
            proof {
                assert(dst@ =~= old(dst)@ + enc_field(field_model(*v)));
            }
            Ok(())
        },
        FieldArgument::UnsignedLong(x) => {
            put_u8(dst, 0x69);
            put_u32(dst, *x);
            proof {
                assert(dst@ =~= old(dst)@ + enc_field(field_model(*v)));
            }
            Ok(())
        },
        FieldArgument::SignedLongLong(x) => {
            put_u8(dst, 0x4C);
            put_u64(dst, crate::wire::to_u64_bits(*x));
            proof {
                assert(dst@ =~= old(dst)@ + enc_field(field_model(*v)));
            }
            Ok(())
        },
        FieldArgument::UnsignedLongLong(x) => {
            put_u8(dst, 0x6C);
            put_u64(dst, *x);
            proof {
                assert(dst@ =~= old(dst)@ + enc_field(field_model(*v)));
            }
            Ok(())
        },
        FieldArgument::Float(x) => {
            put_u8(dst, 0x66);
            put_u32(dst, *x);
            proof {
                assert(dst@ =~= old(dst)@ + enc_field(field_model(*v)));
            }
            Ok(())
        },
        FieldArgument::Double(x) => {
            put_u8(dst, 0x63);
            put_u64(dst, *x);
            proof {
                assert(dst@ =~= old(dst)@ + enc_field(field_model(*v)));
            }
            Ok(())
        },
        FieldArgument::Decimal(x) => {
            put_u8(dst, 0x44);
            put_u64(dst, crate::wire::to_u64_bits(*x));
            proof {
                assert(dst@ =~= old(dst)@ + enc_field(field_model(*v)));
            }
            Ok(())
        },
        FieldArgument::ShortString(s) => {
            if s.len() > 255 {
                return Err(EncodeError::TooLong);
            }
            proof {
                use_type_invariant(s);
            }
            put_u8(dst, 0x73);
            crate::wire::put_sstr_bytes(dst, s.as_bytes());
            proof {
                assert(dst@ =~= old(dst)@ + enc_field(field_model(*v)));
            }
            Ok(())
        },
        FieldArgument::LongString(s) => {
            if s.len() as u64 > 0xFFFFFFFF {
                return Err(EncodeError::TooLong);
            }
            proof {
                use_type_invariant(s);
            }
            put_u8(dst, 0x53);
            crate::wire::put_lstr_bytes(dst, s.as_bytes());
            proof {
                assert(dst@ =~= old(dst)@ + enc_field(field_model(*v)));
            }
            Ok(())
        },
        FieldArgument::Timestamp(x) => {
            put_u8(dst, 0x54);
            put_u64(dst, *x);
            proof {
                assert(dst@ =~= old(dst)@ + enc_field(field_model(*v)));
            }
            Ok(())
        },
        FieldArgument::NestedTable(t) => {
            let mut body: Vec<u8> = Vec::new();
            match encode_field_table(t, &mut body) {
                Err(e) => Err(e),
                Ok(()) => {
                    put_u8(dst, 0x46);
                    crate::wire::push_all(dst, &body);
                    proof {
                        assert(dst@ =~= old(dst)@ + enc_field(field_model(*v)));
                    }
                    Ok(())
                },
            }
        },
        FieldArgument::Void => {
            put_u8(dst, 0x56);
            proof {
                assert(dst@ =~= old(dst)@ + enc_field(field_model(*v)));
            }
            Ok(())
        },
        FieldArgument::ByteArray(_) => Err(EncodeError::UnsupportedFieldType),
    }
}

/// Append the encoding of a whole table: the u32 body length, then the
/// entries in order.  Succeeds exactly when the table can stand on the wire;
/// on failure the destination is unchanged.
pub fn encode_field_table(t: &FieldTable, dst: &mut Vec<u8>) -> (r: Result<(), EncodeError>)
    ensures
        r matches Ok(()) ==> wf_table(table_model(t.0@)) && final(dst)@ == old(dst)@ + enc_table(
            table_model(t.0@),
        ),
        r is Err ==> !wf_table(table_model(t.0@)) && final(dst)@ == old(dst)@,
    decreases *t,
{
    let ghost tm = table_model(t.0@);
    proof {
        lemma_table_model(t.0@);
    }
    let mut body: Vec<u8> = Vec::new();
    let n = t.0.len();
    let mut i: usize = 0;
    while i < n
        invariant
            i <= n,
            n == t.0@.len(),
            tm == table_model(t.0@),
            tm.len() == n,
            forall|j: int| 0 <= j < n ==> #[trigger] tm[j] == (t.0@[j].0@, field_model(t.0@[j].1)),
            body@ == enc_tbody(tm.subrange(0, i as int)),
            wf_entries(tm.subrange(0, i as int)),
        decreases n - i,
    {
        let key = &t.0[i].0;
        if key.len() > 255 {
            proof {
                if wf_entries(tm) {
                    lemma_wf_entries_index(tm, i as int);
                    assert(false);
                }
            }
            return Err(EncodeError::TooLong);
        }
        proof {
            use_type_invariant(key);
        }
        let ghost b0 = body@;
        crate::wire::put_sstr_bytes(&mut body, key.as_bytes());
        match encode_field_value(&t.0[i].1, &mut body) {
            Err(e) => {
                proof {
                    if wf_entries(tm) {
                        lemma_wf_entries_index(tm, i as int);
                        assert(false);
                    }
                }
                return Err(e);
            },
            Ok(()) => {},
        }
        proof {
            let e = tm[i as int];
            assert(tm.subrange(0, i + 1 as int) =~= tm.subrange(0, i as int).push(e));
            lemma_enc_tbody_snoc(tm.subrange(0, i as int), e);
            lemma_wf_entries_snoc(tm.subrange(0, i as int), e);
            assert(body@ =~= enc_tbody(tm.subrange(0, i + 1 as int)));
        }
        i = i + 1;
    }
    proof {
        assert(tm.subrange(0, n as int) =~= tm);
    }
    if body.len() as u64 > 0xFFFFFFFF {
        return Err(EncodeError::TooLong);
    }
    let ghost d0 = dst@;
    put_u32(dst, body.len() as u32);
    crate::wire::push_all(dst, &body);
    proof {
        assert(dst@ =~= d0 + enc_table(tm));
    }
    Ok(())
}

// ---------------------------------------------------------------------------
// Exec: decoding.  Each refusal site has a lemma showing that no well-formed
// encoding sits at the position, so the completeness clause holds there.
// ---------------------------------------------------------------------------

/// The body of a field encoding sits right after its tag byte.
proof fn lemma_field_payload_at(b: Seq<u8>, pos: int, m: FieldModel, p: Seq<u8>)
    requires
        prefix_at(b, pos, enc_field(m)),
        enc_field(m) == seq![field_tag(m)] + p,
    ensures
        prefix_at(b, pos + 1, p),
        b[pos] == field_tag(m),
{
    let ch = b.subrange(pos, pos + enc_field(m).len());
    assert(enc_field(m).len() == 1 + p.len());
    assert(b[pos] == ch[0]);
    assert(b.subrange(pos + 1, pos + 1 + p.len() as int) =~= p) by {
        assert(forall|i: int| 0 <= i < p.len() ==> #[trigger] p[i] == enc_field(m)[1 + i]);
        assert(forall|i: int| 0 <= i < p.len() ==> #[trigger] enc_field(m)[1 + i] == ch[1 + i]);
        assert(forall|i: int| 0 <= i < p.len() ==> #[trigger] ch[1 + i] == b[pos + 1 + i]);
    }
}

/// No well-formed fixed-size field with this tag fits in fewer bytes than
/// its body needs.
proof fn no_fixed_fits(b: Seq<u8>, pos: int, tag: u8, body: int)
    requires
        0 <= pos < b.len(),
        b[pos] == tag,
        b.len() - pos < 1 + body,
        forall|m: FieldModel| field_tag(m) == tag ==> field_body_len(m) == body,
    ensures
        forall|m: FieldModel| #![trigger enc_field(m)]
            !(wf_field(m) && prefix_at(b, pos, enc_field(m))),
{
    assert forall|m: FieldModel| #![trigger enc_field(m)]
        !(wf_field(m) && prefix_at(b, pos, enc_field(m))) by {
        if wf_field(m) && prefix_at(b, pos, enc_field(m)) {
            lemma_enc_field_shape(m);
            assert(b.subrange(pos, pos + enc_field(m).len())[0] == enc_field(m)[0]);
            assert(field_tag(m) == tag);
            assert(false);
        }
    }
}

/// No well-formed short string fits where its length prefix runs out.
proof fn no_sstr_fits(b: Seq<u8>, pos: int)
    requires
        0 <= pos < b.len(),
        b[pos] == 0x73,
        pos + 1 == b.len() || pos + 2 + b[pos + 1] > b.len(),
    ensures
        forall|m: FieldModel| #![trigger enc_field(m)]
            !(wf_field(m) && prefix_at(b, pos, enc_field(m))),
{
    assert forall|m: FieldModel| #![trigger enc_field(m)]
        !(wf_field(m) && prefix_at(b, pos, enc_field(m))) by {
        if wf_field(m) && prefix_at(b, pos, enc_field(m)) {
            lemma_enc_field_shape(m);
            assert(b.subrange(pos, pos + enc_field(m).len())[0] == enc_field(m)[0]);
            assert(m is ShortString);
            let st = m->ShortString_0;
            lemma_field_payload_at(b, pos, m, enc_sstr(st));
            assert(b.subrange(pos + 1, pos + 1 + enc_sstr(st).len() as int)[0] == st.len() as u8);
            assert(b[pos + 1] == st.len() as u8);
            assert(pos + 2 + st.len() <= b.len());
            assert(false);
        }
    }
}

/// No well-formed short string sits where the bytes are not UTF-8.
proof fn no_sstr_utf8(b: Seq<u8>, pos: int, kb: Seq<u8>, send: int)
    requires
        0 <= pos < b.len(),
        b[pos] == 0x73,
        pos + 1 < send <= b.len(),
        kb.len() <= 255,
        b.subrange(pos + 1, send) == enc_sstr(kb),
        !valid_utf8(kb),
    ensures
        forall|m: FieldModel| #![trigger enc_field(m)]
            !(wf_field(m) && prefix_at(b, pos, enc_field(m))),
{
    assert forall|m: FieldModel| #![trigger enc_field(m)]
        !(wf_field(m) && prefix_at(b, pos, enc_field(m))) by {
        if wf_field(m) && prefix_at(b, pos, enc_field(m)) {
            lemma_enc_field_shape(m);
            assert(b.subrange(pos, pos + enc_field(m).len())[0] == enc_field(m)[0]);
            assert(m is ShortString);
            let st = m->ShortString_0;
            lemma_field_payload_at(b, pos, m, enc_sstr(st));
            crate::wire::lemma_subrange_concat(b, pos + 1, send, b.len() as int);
            crate::wire::lemma_subrange_concat(
                b,
                pos + 1,
                pos + 1 + enc_sstr(st).len() as int,
                b.len() as int,
            );
            assert(enc_sstr(kb) + b.subrange(send, b.len() as int) == enc_sstr(st) + b.subrange(
                pos + 1 + enc_sstr(st).len() as int,
                b.len() as int,
            ));
            crate::wire::lemma_sstr_prefix(
                kb,
                st,
                b.subrange(send, b.len() as int),
                b.subrange(pos + 1 + enc_sstr(st).len() as int, b.len() as int),
            );
            assert(false);
        }
    }
}

/// No well-formed long string fits where its length prefix runs out.
proof fn no_lstr_fits(b: Seq<u8>, pos: int)
    requires
        0 <= pos < b.len(),
        b[pos] == 0x53,
        pos + 5 > b.len() || pos + 5 + be32_val(b.subrange(pos + 1, pos + 5)) > b.len(),
    ensures
        forall|m: FieldModel| #![trigger enc_field(m)]
            !(wf_field(m) && prefix_at(b, pos, enc_field(m))),
{
    assert forall|m: FieldModel| #![trigger enc_field(m)]
        !(wf_field(m) && prefix_at(b, pos, enc_field(m))) by {
        if wf_field(m) && prefix_at(b, pos, enc_field(m)) {
            lemma_enc_field_shape(m);
            assert(b.subrange(pos, pos + enc_field(m).len())[0] == enc_field(m)[0]);
            assert(m is LongString);
            let st = m->LongString_0;
            lemma_field_payload_at(b, pos, m, enc_lstr(st));
            let p = b.subrange(pos + 1, pos + 1 + enc_lstr(st).len() as int);
            assert(b.subrange(pos + 1, pos + 5) =~= be32(st.len() as u32)) by {
                assert(forall|i: int| 0 <= i < 4 ==> #[trigger] p[i] == enc_lstr(st)[i]);
                assert(forall|i: int| 0 <= i < 4 ==> #[trigger] p[i] == b[pos + 1 + i]);
            }
            crate::wire::lemma_be32_val(st.len() as u32);
            assert(pos + 5 + st.len() <= b.len());
            assert(false);
        }
    }
}

/// No well-formed long string sits where the bytes are not UTF-8.
proof fn no_lstr_utf8(b: Seq<u8>, pos: int, kb: Seq<u8>, send: int)
    requires
        0 <= pos < b.len(),
        b[pos] == 0x53,
        pos + 1 < send <= b.len(),
        kb.len() <= 0xFFFFFFFF,
        b.subrange(pos + 1, send) == enc_lstr(kb),
        !valid_utf8(kb),
    ensures
        forall|m: FieldModel| #![trigger enc_field(m)]
            !(wf_field(m) && prefix_at(b, pos, enc_field(m))),
{
    assert forall|m: FieldModel| #![trigger enc_field(m)]
        !(wf_field(m) && prefix_at(b, pos, enc_field(m))) by {
        if wf_field(m) && prefix_at(b, pos, enc_field(m)) {
            lemma_enc_field_shape(m);
            assert(b.subrange(pos, pos + enc_field(m).len())[0] == enc_field(m)[0]);
            assert(m is LongString);
            let st = m->LongString_0;
            lemma_field_payload_at(b, pos, m, enc_lstr(st));
            crate::wire::lemma_subrange_concat(b, pos + 1, send, b.len() as int);
            crate::wire::lemma_subrange_concat(
                b,
                pos + 1,
                pos + 1 + enc_lstr(st).len() as int,
                b.len() as int,
            );
            assert(enc_lstr(kb) + b.subrange(send, b.len() as int) == enc_lstr(st) + b.subrange(
                pos + 1 + enc_lstr(st).len() as int,
                b.len() as int,
            ));
            crate::wire::lemma_lstr_prefix(
                kb,
                st,
                b.subrange(send, b.len() as int),
                b.subrange(pos + 1 + enc_lstr(st).len() as int, b.len() as int),
            );
            assert(false);
        }
    }
}

/// No well-formed nested table sits where the table decoder refused one.
proof fn no_nested_fits(b: Seq<u8>, pos: int)
    requires
        0 <= pos < b.len(),
        b[pos] == 0x46,
        forall|t: TableModel| #![trigger enc_table(t)]
            !(wf_table(t) && prefix_at(b, pos + 1, enc_table(t))),
    ensures
        forall|m: FieldModel| #![trigger enc_field(m)]
            !(wf_field(m) && prefix_at(b, pos, enc_field(m))),
{
    assert forall|m: FieldModel| #![trigger enc_field(m)]
        !(wf_field(m) && prefix_at(b, pos, enc_field(m))) by {
        if wf_field(m) && prefix_at(b, pos, enc_field(m)) {
            lemma_enc_field_shape(m);
            assert(b.subrange(pos, pos + enc_field(m).len())[0] == enc_field(m)[0]);
            assert(m is NestedTable);
            let t = m->NestedTable_0;
            assert(enc_field(m) =~= seq![field_tag(m)] + enc_table(t));
            lemma_field_payload_at(b, pos, m, enc_table(t));
            assert(false);
        }
    }
}

/// No well-formed field at all (only possible when every tag is refused or
/// the buffer ended).
proof fn no_field_fits_tag(b: Seq<u8>, pos: int, tag: u8)
    requires
        0 <= pos < b.len(),
        b[pos] == tag,
        forall|m: FieldModel| field_tag(m) != tag,
    ensures
        forall|m: FieldModel| #![trigger enc_field(m)]
            !(wf_field(m) && prefix_at(b, pos, enc_field(m))),
{
    assert forall|m: FieldModel| #![trigger enc_field(m)]
        !(wf_field(m) && prefix_at(b, pos, enc_field(m))) by {
        if wf_field(m) && prefix_at(b, pos, enc_field(m)) {
            lemma_enc_field_shape(m);
            assert(b.subrange(pos, pos + enc_field(m).len())[0] == enc_field(m)[0]);
            assert(false);
        }
    }
}

/// Where a short-string chunk sits in the buffer: its length byte, its end,
/// and its content bytes.
proof fn lemma_sstr_chunk_bytes(b: Seq<u8>, pos: int, s: Seq<u8>, send: int)
    requires
        0 <= pos,
        pos + 1 < send <= b.len(),
        b.subrange(pos + 1, send) == enc_sstr(s),
        s.len() <= 255,
    ensures
        b[pos + 1] == s.len() as u8,
        send == pos + 2 + s.len(),
        s == b.subrange(pos + 2, pos + 2 + s.len() as int),
{
    let ch = b.subrange(pos + 1, send);
    assert(ch.len() == 1 + s.len());
    assert(ch[0] == s.len() as u8);
    assert(b[pos + 1] == ch[0]);
    assert(s =~= b.subrange(pos + 2, pos + 2 + s.len() as int)) by {
        assert(forall|i: int| 0 <= i < s.len() ==> #[trigger] s[i] == ch[1 + i]);
        assert(forall|i: int| 0 <= i < s.len() ==> #[trigger] b.subrange(
            pos + 2,
            pos + 2 + s.len() as int,
        )[i] == b[pos + 2 + i]);
        assert(forall|i: int| 0 <= i < s.len() ==> #[trigger] ch[1 + i] == b[pos + 1 + 1 + i]);
        assert(forall|i: int| 0 <= i < s.len() ==> b[pos + 1 + 1 + i] == #[trigger] b[pos + 2
            + i]);
    }
}

/// Where a long-string chunk sits in the buffer: its length word, its end,
/// and its content bytes.
proof fn lemma_lstr_chunk_bytes(b: Seq<u8>, pos: int, s: Seq<u8>, send: int)
    requires
        0 <= pos,
        pos + 1 < send <= b.len(),
        b.subrange(pos + 1, send) == enc_lstr(s),
        s.len() <= 0xFFFFFFFF,
    ensures
        b.subrange(pos + 1, pos + 5) == be32(s.len() as u32),
        be32_val(b.subrange(pos + 1, pos + 5)) == s.len(),
        send == pos + 5 + s.len(),
        s == b.subrange(pos + 5, pos + 5 + s.len() as int),
{
    let ch = b.subrange(pos + 1, send);
    assert(ch.len() == 4 + s.len());
    assert(b.subrange(pos + 1, pos + 5) =~= be32(s.len() as u32)) by {
        assert(forall|i: int| 0 <= i < 4 ==> #[trigger] be32(s.len() as u32)[i] == ch[i]);
        assert(forall|i: int| 0 <= i < 4 ==> #[trigger] ch[i] == b[pos + 1 + i]);
        assert(forall|i: int| 0 <= i < 4 ==> #[trigger] b.subrange(pos + 1, pos + 5)[i] == b[pos
            + 1 + i]);
    }
    crate::wire::lemma_be32_val(s.len() as u32);
    assert(s =~= b.subrange(pos + 5, pos + 5 + s.len() as int)) by {
        assert(forall|i: int| 0 <= i < s.len() ==> #[trigger] s[i] == ch[4 + i]);
        assert(forall|i: int| 0 <= i < s.len() ==> #[trigger] b.subrange(
            pos + 5,
            pos + 5 + s.len() as int,
        )[i] == b[pos + 5 + i]);
        assert(forall|i: int| 0 <= i < s.len() ==> #[trigger] ch[4 + i] == b[pos + 1 + 4 + i]);
        assert(forall|i: int| 0 <= i < s.len() ==> b[pos + 1 + 4 + i] == #[trigger] b[pos + 5
            + i]);
    }
}

/// Decode one field value at `pos`.
///
/// On success the consumed bytes are exactly the encoding of the returned
/// value, and decoding succeeds whenever a well-formed encoding sits at
/// `pos`, so decoding an encoded value yields it back.
pub fn decode_field_value(b: &Vec<u8>, pos: usize) -> (r: Result<
    (FieldArgument, usize),
    DecodeError,
>)
    requires
        pos <= b@.len(),
    ensures
        match r {
            Ok(p) => pos < p.1 <= b@.len() && wf_field(field_model(p.0)) && b@.subrange(
                pos as int,
                p.1 as int,
            ) == enc_field(field_model(p.0)),
            Err(e) => field_error(e),
        },
        forall|m: FieldModel| #![trigger enc_field(m)]
            wf_field(m) && prefix_at(b@, pos as int, enc_field(m)) ==> r is Ok,
        pos == b@.len() ==> r == Err::<(FieldArgument, usize), DecodeError>(
            DecodeError::PayloadTruncated,
        ),
        pos < b@.len() && !recognized_tag(b@[pos as int]) ==> r == Err::<
            (FieldArgument, usize),
            DecodeError,
        >(DecodeError::InvalidFieldArgumentTypeByte(b@[pos as int])),
        r matches Err(e) ==> (e matches DecodeError::InvalidFieldArgumentTypeByte(t) ==> pos
            < b@.len() && (t == b@[pos as int] && !recognized_tag(t) || b@[pos as int] == 0x46)),
        pos < b@.len() && b@[pos as int] == 0x78 ==> r == Err::<(FieldArgument, usize), DecodeError>(
            DecodeError::UnsupportedFieldType(0x78),
        ),
        r matches Err(e) ==> (e matches DecodeError::UnsupportedFieldType(t) ==> t == 0x78),
        r matches Err(e) ==> (e matches DecodeError::InvalidBooleanByte(x) ==> x > 1),
        pos + 1 < b@.len() && b@[pos as int] == 0x74 && b@[pos + 1] > 1 ==> r == Err::<
            (FieldArgument, usize),
            DecodeError,
        >(DecodeError::InvalidBooleanByte(b@[pos + 1])),
        (pos < b@.len() && (fixed_len_of(b@[pos as int]) matches Some(k) && b@.len() - pos < 1
            + k)) ==> r == Err::<(FieldArgument, usize), DecodeError>(
            DecodeError::PayloadTruncated,
        ),
        pos < b@.len() && b@[pos as int] == 0x73 && (pos + 1 == b@.len() || pos + 2 + b@[pos + 1]
            > b@.len()) ==> r == Err::<(FieldArgument, usize), DecodeError>(
            DecodeError::PayloadTruncated,
        ),
        pos < b@.len() && b@[pos as int] == 0x73 && pos + 2 + b@[pos + 1] <= b@.len()
            && !valid_utf8(b@.subrange(pos + 2, pos + 2 + b@[pos + 1])) ==> r == Err::<
            (FieldArgument, usize),
            DecodeError,
        >(DecodeError::InvalidUtf8),
        pos < b@.len() && b@[pos as int] == 0x53 && (pos + 5 > b@.len() || pos + 5 + be32_val(
            b@.subrange(pos + 1, pos + 5),
        ) > b@.len()) ==> r == Err::<(FieldArgument, usize), DecodeError>(
            DecodeError::PayloadTruncated,
        ),
        pos < b@.len() && b@[pos as int] == 0x53 && pos + 5 + be32_val(
            b@.subrange(pos + 1, pos + 5),
        ) <= b@.len() && !valid_utf8(
            b@.subrange(pos + 5, pos + 5 + be32_val(b@.subrange(pos + 1, pos + 5))),
        ) ==> r == Err::<(FieldArgument, usize), DecodeError>(DecodeError::InvalidUtf8),
    decreases b@.len() - pos,
{
    let n = b.len();
    if pos >= n {
        proof {
            assert forall|m: FieldModel| #![trigger enc_field(m)]
                !(wf_field(m) && prefix_at(b@, pos as int, enc_field(m))) by {
                if wf_field(m) && prefix_at(b@, pos as int, enc_field(m)) {
                    lemma_enc_field_shape(m);
                    assert(false);
                }
            }
        }
        return Err(DecodeError::PayloadTruncated);
    }
    let tag = b[pos];
    match tag {
        0x74 => {
            if n - pos < 2 {
                proof {
                    no_fixed_fits(b@, pos as int, tag, 1);
                }
                return Err(DecodeError::PayloadTruncated);
            }
            let x = b[pos + 1];
            if x > 1 {
                proof {
                    assert forall|m: FieldModel| #![trigger enc_field(m)]
                        !(wf_field(m) && prefix_at(b@, pos as int, enc_field(m))) by {
                        if wf_field(m) && prefix_at(b@, pos as int, enc_field(m)) {
                            lemma_enc_field_shape(m);
                            let ch = b@.subrange(pos as int, pos + enc_field(m).len());
                            assert(ch[0] == enc_field(m)[0]);
                            assert(m is Boolean);
                            assert(ch[1] == enc_field(m)[1]);
                            assert(enc_field(m)[1] <= 1);
                            assert(false);
                        }
                    }
                }
                return Err(DecodeError::InvalidBooleanByte(x));
            }
            let v = FieldArgument::Boolean(x == 1);
            proof {
                assert(b@.subrange(pos as int, pos + 2) =~= enc_field(field_model(v)));
            }
            Ok((v, pos + 2))
        },
        0x62 => {
            if n - pos < 2 {
                proof {
                    no_fixed_fits(b@, pos as int, tag, 1);
                }
                return Err(DecodeError::PayloadTruncated);
            }
            let x = crate::wire::from_u8_bits(b[pos + 1]);
            let v = FieldArgument::SignedOctet(x);
            proof {
                crate::wire::lemma_u8_bits_inv(b@[pos + 1]);
                assert(b@.subrange(pos as int, pos + 2) =~= enc_field(field_model(v)));
            }
            Ok((v, pos + 2))
        },
        0x42 => {
            if n - pos < 2 {
                proof {
                    no_fixed_fits(b@, pos as int, tag, 1);
                }
                return Err(DecodeError::PayloadTruncated);
            }
            let v = FieldArgument::UnsignedOctet(b[pos + 1]);
            proof {
                assert(b@.subrange(pos as int, pos + 2) =~= enc_field(field_model(v)));
            }
            Ok((v, pos + 2))
        },
        0x55 => {
            if n - pos < 3 {
                proof {
                    no_fixed_fits(b@, pos as int, tag, 2);
                }
                return Err(DecodeError::PayloadTruncated);
            }
            let w = crate::wire::get_u16(b, pos + 1);
            let v = FieldArgument::SignedShort(crate::wire::from_u16_bits(w));
            proof {
                crate::wire::lemma_u16_bits_inv(w);
                crate::wire::lemma_subrange_concat(b@, pos as int, pos + 1, pos + 3);
                assert(b@.subrange(pos as int, pos + 1) =~= seq![tag]);
                assert(b@.subrange(pos as int, pos + 3) == enc_field(field_model(v)));
            }
            Ok((v, pos + 3))
        },
        0x75 => {
            if n - pos < 3 {
                proof {
                    no_fixed_fits(b@, pos as int, tag, 2);
                }
                return Err(DecodeError::PayloadTruncated);
            }
            let w = crate::wire::get_u16(b, pos + 1);
            let v = FieldArgument::UnsignedShort(w);
            proof {
                crate::wire::lemma_subrange_concat(b@, pos as int, pos + 1, pos + 3);
                assert(b@.subrange(pos as int, pos + 1) =~= seq![tag]);
                assert(b@.subrange(pos as int, pos + 3) == enc_field(field_model(v)));
            }
            Ok((v, pos + 3))
        },
        0x49 => {
            if n - pos < 5 {
                proof {
                    no_fixed_fits(b@, pos as int, tag, 4);
                }
                return Err(DecodeError::PayloadTruncated);
            }
            let w = crate::wire::get_u32(b, pos + 1);
            let v = FieldArgument::SignedLong(crate::wire::from_u32_bits(w));
            proof {
                crate::wire::lemma_u32_bits_inv(w);
                crate::wire::lemma_subrange_concat(b@, pos as int, pos + 1, pos + 5);
                assert(b@.subrange(pos as int, pos + 1) =~= seq![tag]);
                assert(b@.subrange(pos as int, pos + 5) == enc_field(field_model(v)));
            }
            Ok((v, pos + 5))
        },
        0x69 => {
            if n - pos < 5 {
                proof {
                    no_fixed_fits(b@, pos as int, tag, 4);
                }
                return Err(DecodeError::PayloadTruncated);
            }
            let w = crate::wire::get_u32(b, pos + 1);
            let v = FieldArgument::UnsignedLong(w);
            proof {
                crate::wire::lemma_subrange_concat(b@, pos as int, pos + 1, pos + 5);
                assert(b@.subrange(pos as int, pos + 1) =~= seq![tag]);
                assert(b@.subrange(pos as int, pos + 5) == enc_field(field_model(v)));
            }
            Ok((v, pos + 5))
        },
        0x4C => {
            if n - pos < 9 {
                proof {
                    no_fixed_fits(b@, pos as int, tag, 8);
                }
                return Err(DecodeError::PayloadTruncated);
            }
            let w = crate::wire::get_u64(b, pos + 1);
            let v = FieldArgument::SignedLongLong(crate::wire::from_u64_bits(w));
            proof {
                crate::wire::lemma_u64_bits_inv(w);
                crate::wire::lemma_subrange_concat(b@, pos as int, pos + 1, pos + 9);
                assert(b@.subrange(pos as int, pos + 1) =~= seq![tag]);
                assert(b@.subrange(pos as int, pos + 9) == enc_field(field_model(v)));
            }
            Ok((v, pos + 9))
        },
        0x6C => {
            if n - pos < 9 {
                proof {
                    no_fixed_fits(b@, pos as int, tag, 8);
                }
                return Err(DecodeError::PayloadTruncated);
            }
            let w = crate::wire::get_u64(b, pos + 1);
            let v = FieldArgument::UnsignedLongLong(w);
            proof {
                crate::wire::lemma_subrange_concat(b@, pos as int, pos + 1, pos + 9);
                assert(b@.subrange(pos as int, pos + 1) =~= seq![tag]);
                assert(b@.subrange(pos as int, pos + 9) == enc_field(field_model(v)));
            }
            Ok((v, pos + 9))
        },
        0x66 => {
            if n - pos < 5 {
                proof {
                    no_fixed_fits(b@, pos as int, tag, 4);
                }
                return Err(DecodeError::PayloadTruncated);
            }
            let w = crate::wire::get_u32(b, pos + 1);
            let v = FieldArgument::Float(w);
            proof {
                crate::wire::lemma_subrange_concat(b@, pos as int, pos + 1, pos + 5);
                assert(b@.subrange(pos as int, pos + 1) =~= seq![tag]);
                assert(b@.subrange(pos as int, pos + 5) == enc_field(field_model(v)));
            }
            Ok((v, pos + 5))
        },
        0x63 => {
            if n - pos < 9 {
                proof {
                    no_fixed_fits(b@, pos as int, tag, 8);
                }
                return Err(DecodeError::PayloadTruncated);
            }
            let w = crate::wire::get_u64(b, pos + 1);
            let v = FieldArgument::Double(w);
            proof {
                crate::wire::lemma_subrange_concat(b@, pos as int, pos + 1, pos + 9);
                assert(b@.subrange(pos as int, pos + 1) =~= seq![tag]);
                assert(b@.subrange(pos as int, pos + 9) == enc_field(field_model(v)));
            }
            Ok((v, pos + 9))
        },
        0x44 => {
            if n - pos < 9 {
                proof {
                    no_fixed_fits(b@, pos as int, tag, 8);
                }
                return Err(DecodeError::PayloadTruncated);
            }
            let w = crate::wire::get_u64(b, pos + 1);
            let v = FieldArgument::Decimal(crate::wire::from_u64_bits(w));
            proof {
                crate::wire::lemma_u64_bits_inv(w);
                crate::wire::lemma_subrange_concat(b@, pos as int, pos + 1, pos + 9);
                assert(b@.subrange(pos as int, pos + 1) =~= seq![tag]);
                assert(b@.subrange(pos as int, pos + 9) == enc_field(field_model(v)));
            }
            Ok((v, pos + 9))
        },
        0x54 => {
            if n - pos < 9 {
                proof {
                    no_fixed_fits(b@, pos as int, tag, 8);
                }
                return Err(DecodeError::PayloadTruncated);
            }
            let w = crate::wire::get_u64(b, pos + 1);
            let v = FieldArgument::Timestamp(w);
            proof {
                crate::wire::lemma_subrange_concat(b@, pos as int, pos + 1, pos + 9);
                assert(b@.subrange(pos as int, pos + 1) =~= seq![tag]);
                assert(b@.subrange(pos as int, pos + 9) == enc_field(field_model(v)));
            }
            Ok((v, pos + 9))
        },
        0x73 => {
            let (kb, send) = match crate::wire::read_sstr_bytes(b, pos + 1) {
                Err(_) => {
                    proof {
                        no_sstr_fits(b@, pos as int);
                    }
                    return Err(DecodeError::PayloadTruncated);
                },
                Ok(p) => p,
            };
            proof {
                lemma_sstr_chunk_bytes(b@, pos as int, kb@, send as int);
                assert(b@[pos + 1] as int == kb@.len() as int);
                assert(b@.subrange(pos + 2, pos + 2 + b@[pos + 1]) == kb@);
            }
            match AmqpString::from_bytes(kb) {
                Err(e) => {
                    proof {
                        no_sstr_utf8(b@, pos as int, kb@, send as int);
                    }
                    return Err(e);
                },
                Ok(astr) => {
                    let v = FieldArgument::ShortString(astr);
                    proof {
                        crate::wire::lemma_subrange_concat(b@, pos as int, pos + 1, send as int);
                        assert(b@.subrange(pos as int, pos + 1) =~= seq![tag]);
                        assert(b@.subrange(pos as int, send as int) == enc_field(field_model(v)));
                    }
                    Ok((v, send))
                },
            }
        },
        0x53 => {
            let (kb, send) = match crate::wire::read_lstr_bytes(b, pos + 1) {
                Err(_) => {
                    proof {
                        no_lstr_fits(b@, pos as int);
                    }
                    return Err(DecodeError::PayloadTruncated);
                },
                Ok(p) => p,
            };
            proof {
                lemma_lstr_chunk_bytes(b@, pos as int, kb@, send as int);
                assert(b@.subrange(pos + 5, pos + 5 + be32_val(b@.subrange(pos + 1, pos + 5)))
                    == kb@);
            }
            match AmqpString::from_bytes(kb) {
                Err(e) => {
                    proof {
                        no_lstr_utf8(b@, pos as int, kb@, send as int);
                    }
                    return Err(e);
                },
                Ok(astr) => {
                    let v = FieldArgument::LongString(astr);
                    proof {
                        crate::wire::lemma_subrange_concat(b@, pos as int, pos + 1, send as int);
                        assert(b@.subrange(pos as int, pos + 1) =~= seq![tag]);
                        assert(b@.subrange(pos as int, send as int) == enc_field(field_model(v)));
                    }
                    Ok((v, send))
                },
            }
        },
        0x46 => {
            match decode_field_table(b, pos + 1) {
                Err(e) => {
                    proof {
                        no_nested_fits(b@, pos as int);
                    }
                    Err(e)
                },
                Ok((ft, tend)) => {
                    let v = FieldArgument::NestedTable(ft);
                    proof {
                        let tm = table_model(ft.0@);
                        crate::wire::lemma_subrange_concat(b@, pos as int, pos + 1, tend as int);
                        assert(b@.subrange(pos as int, pos + 1) =~= seq![tag]);
                        assert(enc_field(field_model(v)) =~= seq![0x46u8] + enc_table(tm));
                        assert(b@.subrange(pos as int, tend as int) == enc_field(field_model(v)));
                    }
                    Ok((v, tend))
                },
            }
        },
        0x56 => {
            let v = FieldArgument::Void;
            proof {
                assert(b@.subrange(pos as int, pos + 1) =~= enc_field(field_model(v)));
            }
            Ok((v, pos + 1))
        },
        0x78 => {
            proof {
                assert forall|m: FieldModel| #![trigger enc_field(m)]
                    !(wf_field(m) && prefix_at(b@, pos as int, enc_field(m))) by {
                    if wf_field(m) && prefix_at(b@, pos as int, enc_field(m)) {
                        lemma_enc_field_shape(m);
                        assert(b@.subrange(pos as int, pos + enc_field(m).len())[0] == enc_field(
                            m,
                        )[0]);
                        assert(m is ByteArray);
                        assert(false);
                    }
                }
            }
            Err(DecodeError::UnsupportedFieldType(0x78))
        },
        _ => {
            proof {
                no_field_fits_tag(b@, pos as int, tag);
            }
            Err(DecodeError::InvalidFieldArgumentTypeByte(tag))
        },
    }
}

/// Invariant of the table-entry scan: the bytes between the length prefix
/// and the cursor are exactly the encoding of the entries read so far.
spec fn table_scan_inv(b: Seq<u8>, pos: int, cur: int, sofar: TableModel) -> bool {
    &&& 0 <= pos
    &&& pos + 4 <= cur <= b.len()
    &&& wf_entries(sofar)
    &&& b.subrange(pos + 4, cur) == enc_tbody(sofar)
    &&& cur < pos + 4 + be32_val(b.subrange(pos, pos + 4))
}

/// No well-formed table sits at `pos` when the next entry's key runs out of
/// the buffer.
#[verifier::rlimit(50)]
proof fn no_table_key_read(b: Seq<u8>, pos: int, cur: int, sofar: TableModel)
    requires
        table_scan_inv(b, pos, cur, sofar),
        cur == b.len() || cur + 1 + b[cur] > b.len(),
    ensures
        forall|t: TableModel| #![trigger enc_table(t)]
            !(wf_table(t) && prefix_at(b, pos, enc_table(t))),
{
    assert forall|t: TableModel| #![trigger enc_table(t)]
        !(wf_table(t) && prefix_at(b, pos, enc_table(t))) by {
        if wf_table(t) && prefix_at(b, pos, enc_table(t)) {
            lemma_table_header(b, pos, t);
            lemma_table_loop_facts(b, pos, cur, sofar, t);
            let k = sofar.len() as int;
            assert(b[cur] == t[k].0.len() as u8);
            assert(cur + 1 + t[k].0.len() <= pos + 4 + enc_tbody(t).len());
            assert(false);
        }
    }
}

/// No well-formed table sits at `pos` when the next entry's key would cross
/// the end that the length prefix declared.
#[verifier::rlimit(50)]
proof fn no_table_key_cross(b: Seq<u8>, pos: int, cur: int, sofar: TableModel, kb: Seq<u8>, kend: int)
    requires
        table_scan_inv(b, pos, cur, sofar),
        kb.len() <= 255,
        cur < kend <= b.len(),
        b.subrange(cur, kend) == enc_sstr(kb),
        kend > pos + 4 + be32_val(b.subrange(pos, pos + 4)),
    ensures
        forall|t: TableModel| #![trigger enc_table(t)]
            !(wf_table(t) && prefix_at(b, pos, enc_table(t))),
{
    assert forall|t: TableModel| #![trigger enc_table(t)]
        !(wf_table(t) && prefix_at(b, pos, enc_table(t))) by {
        if wf_table(t) && prefix_at(b, pos, enc_table(t)) {
            lemma_table_header(b, pos, t);
            lemma_table_loop_facts(b, pos, cur, sofar, t);
            let k = sofar.len() as int;
            assert(b.subrange(cur, kend)[0] == kb.len() as u8);
            assert(b[cur] == kb.len() as u8);
            assert(kb.len() == t[k].0.len());
            assert(enc_sstr(kb).len() == 1 + kb.len());
            assert(kend == cur + 1 + kb.len());
            assert(false);
        }
    }
}

/// No well-formed table sits at `pos` when the next entry's key bytes are
/// not UTF-8.
#[verifier::rlimit(100)]
#[verifier::spinoff_prover]
proof fn no_table_key_utf8(b: Seq<u8>, pos: int, cur: int, sofar: TableModel, kb: Seq<u8>, kend: int)
    requires
        table_scan_inv(b, pos, cur, sofar),
        kb.len() <= 255,
        cur < kend <= b.len(),
        b.subrange(cur, kend) == enc_sstr(kb),
        !valid_utf8(kb),
    ensures
        forall|t: TableModel| #![trigger enc_table(t)]
            !(wf_table(t) && prefix_at(b, pos, enc_table(t))),
{
    assert forall|t: TableModel| #![trigger enc_table(t)]
        !(wf_table(t) && prefix_at(b, pos, enc_table(t))) by {
        if wf_table(t) && prefix_at(b, pos, enc_table(t)) {
            lemma_table_loop_facts(b, pos, cur, sofar, t);
            let k = sofar.len() as int;
            let e0 = t[k].0;
            crate::wire::lemma_subrange_concat(b, cur, kend, b.len() as int);
            crate::wire::lemma_subrange_concat(b, cur, cur + 1 + e0.len() as int, b.len() as int);
            assert(enc_sstr(kb) + b.subrange(kend, b.len() as int) == enc_sstr(e0) + b.subrange(
                cur + 1 + e0.len() as int,
                b.len() as int,
            ));
            crate::wire::lemma_sstr_prefix(
                kb,
                e0,
                b.subrange(kend, b.len() as int),
                b.subrange(cur + 1 + e0.len() as int, b.len() as int),
            );
            assert(false);
        }
    }
}

/// No well-formed table sits at `pos` when no well-formed field value sits
/// after the next entry's key.
#[verifier::rlimit(100)]
#[verifier::spinoff_prover]
proof fn no_table_value(b: Seq<u8>, pos: int, cur: int, sofar: TableModel, kb: Seq<u8>, kend: int)
    requires
        table_scan_inv(b, pos, cur, sofar),
        kb.len() <= 255,
        cur < kend <= b.len(),
        b.subrange(cur, kend) == enc_sstr(kb),
        forall|m: FieldModel| #![trigger enc_field(m)]
            !(wf_field(m) && prefix_at(b, kend, enc_field(m))),
    ensures
        forall|t: TableModel| #![trigger enc_table(t)]
            !(wf_table(t) && prefix_at(b, pos, enc_table(t))),
{
    assert forall|t: TableModel| #![trigger enc_table(t)]
        !(wf_table(t) && prefix_at(b, pos, enc_table(t))) by {
        if wf_table(t) && prefix_at(b, pos, enc_table(t)) {
            lemma_table_loop_facts(b, pos, cur, sofar, t);
            let k = sofar.len() as int;
            assert(b.subrange(cur, kend)[0] == kb.len() as u8);
            assert(b[cur] == kb.len() as u8);
            assert(kb.len() == t[k].0.len());
            assert(enc_sstr(kb).len() == 1 + kb.len());
            assert(kend == cur + 1 + t[k].0.len());
            assert(prefix_at(b, kend, enc_field(t[k].1)));
            assert(false);
        }
    }
}

/// No well-formed table sits at `pos` when the next entry's value would
/// cross the end that the length prefix declared.
#[verifier::rlimit(50)]
proof fn no_table_value_cross(
    b: Seq<u8>,
    pos: int,
    cur: int,
    sofar: TableModel,
    kb: Seq<u8>,
    kend: int,
    vm: FieldModel,
    vend: int,
)
    requires
        table_scan_inv(b, pos, cur, sofar),
        kb.len() <= 255,
        cur < kend <= b.len(),
        b.subrange(cur, kend) == enc_sstr(kb),
        wf_field(vm),
        kend < vend <= b.len(),
        b.subrange(kend, vend) == enc_field(vm),
        vend > pos + 4 + be32_val(b.subrange(pos, pos + 4)),
    ensures
        forall|t: TableModel| #![trigger enc_table(t)]
            !(wf_table(t) && prefix_at(b, pos, enc_table(t))),
{
    assert forall|t: TableModel| #![trigger enc_table(t)]
        !(wf_table(t) && prefix_at(b, pos, enc_table(t))) by {
        if wf_table(t) && prefix_at(b, pos, enc_table(t)) {
            lemma_table_header(b, pos, t);
            lemma_table_loop_facts(b, pos, cur, sofar, t);
            let k = sofar.len() as int;
            let ev = t[k].1;
            assert(b.subrange(cur, kend)[0] == kb.len() as u8);
            assert(b[cur] == kb.len() as u8);
            assert(kb.len() == t[k].0.len());
            assert(enc_sstr(kb).len() == 1 + kb.len());
            assert(kend == cur + 1 + t[k].0.len());
            let fl = enc_field(ev).len() as int;
            crate::wire::lemma_subrange_concat(b, kend, vend, b.len() as int);
            crate::wire::lemma_subrange_concat(b, kend, kend + fl, b.len() as int);
            assert(enc_field(vm) + b.subrange(vend, b.len() as int) == enc_field(ev) + b.subrange(
                kend + fl,
                b.len() as int,
            ));
            lemma_field_prefix(
                vm,
                ev,
                b.subrange(vend, b.len() as int),
                b.subrange(kend + fl, b.len() as int),
            );
            assert(vend == kend + fl);
            assert(false);
        }
    }
}

/// Decode a whole field table at `pos`.
///
/// On success the consumed bytes are exactly the encoding of the returned
/// table, and decoding succeeds whenever a well-formed table encoding sits
/// at `pos`, so decoding an encoded table yields its entries back in order.
pub fn decode_field_table(b: &Vec<u8>, pos: usize) -> (r: Result<(FieldTable, usize), DecodeError>)
    requires
        pos <= b@.len(),
    ensures
        match r {
            Ok(p) => pos + 4 <= p.1 <= b@.len() && wf_table(table_model(p.0.0@)) && b@.subrange(
                pos as int,
                p.1 as int,
            ) == enc_table(table_model(p.0.0@)),
            Err(e) => field_error(e),
        },
        forall|t: TableModel| #![trigger enc_table(t)]
            wf_table(t) && prefix_at(b@, pos as int, enc_table(t)) ==> r is Ok,
        b@.len() - pos < 4 || be32_val(b@.subrange(pos as int, pos + 4)) > b@.len() - pos - 4
            ==> r == Err::<(FieldTable, usize), DecodeError>(DecodeError::PayloadTruncated),
        r matches Err(e) ==> (e matches DecodeError::UnsupportedFieldType(t) ==> t == 0x78),
        r matches Err(e) ==> (e matches DecodeError::InvalidBooleanByte(x) ==> x > 1),
    decreases b@.len() - pos,
{
    let n = b.len();
    if n - pos < 4 {
        proof {
            assert forall|t: TableModel| #![trigger enc_table(t)]
                !(wf_table(t) && prefix_at(b@, pos as int, enc_table(t))) by {
                if wf_table(t) && prefix_at(b@, pos as int, enc_table(t)) {
                    lemma_table_header(b@, pos as int, t);
                    assert(false);
                }
            }
        }
        return Err(DecodeError::PayloadTruncated);
    }
    let size32 = crate::wire::get_u32(b, pos);
    let size = size32 as usize;
    if size > n - (pos + 4) {
        proof {
            assert forall|t: TableModel| #![trigger enc_table(t)]
                !(wf_table(t) && prefix_at(b@, pos as int, enc_table(t))) by {
                if wf_table(t) && prefix_at(b@, pos as int, enc_table(t)) {
                    lemma_table_header(b@, pos as int, t);
                    assert(false);
                }
            }
        }
        return Err(DecodeError::PayloadTruncated);
    }
    let end = pos + 4 + size;
    let mut entries: Vec<(AmqpString, FieldArgument)> = Vec::new();
    let mut cur: usize = pos + 4;
    while cur < end
        invariant
            pos + 4 <= cur <= end <= n,
            n == b@.len(),
            end == pos + 4 + size,
            size == size32,
            size32 == be32_val(b@.subrange(pos as int, pos + 4)),
            be32(size32) == b@.subrange(pos as int, pos + 4),
            b@.subrange(pos + 4, cur as int) == enc_tbody(table_model(entries@)),
            wf_entries(table_model(entries@)),
        decreases end - cur,
    {
        let ghost sofar = table_model(entries@);
        proof {
            assert(table_scan_inv(b@, pos as int, cur as int, sofar));
        }
        let (kb, kend) = match crate::wire::read_sstr_bytes(b, cur) {
            Err(_) => {
                proof {
                    no_table_key_read(b@, pos as int, cur as int, sofar);
                }
                return Err(DecodeError::PayloadTruncated);
            },
            Ok(p) => p,
        };
        if kend > end {
            proof {
                no_table_key_cross(b@, pos as int, cur as int, sofar, kb@, kend as int);
            }
            return Err(DecodeError::PayloadTruncated);
        }
        let key = match AmqpString::from_bytes(kb) {
            Err(e) => {
                proof {
                    no_table_key_utf8(b@, pos as int, cur as int, sofar, kb@, kend as int);
                }
                return Err(e);
            },
            Ok(k) => k,
        };
        let (val, vend) = match decode_field_value(b, kend) {
            Err(e) => {
                proof {
                    no_table_value(b@, pos as int, cur as int, sofar, kb@, kend as int);
                }
                return Err(e);
            },
            Ok(p) => p,
        };
        if vend > end {
            proof {
                no_table_value_cross(
                    b@,
                    pos as int,
                    cur as int,
                    sofar,
                    kb@,
                    kend as int,
                    field_model(val),
                    vend as int,
                );
            }
            return Err(DecodeError::PayloadTruncated);
        }
        proof {
            let e = (key@, field_model(val));
            lemma_table_model(entries@);
            lemma_table_model(entries@.push((key, val)));
            assert(table_model(entries@.push((key, val))) =~= sofar.push(e)) by {
                assert(forall|j: int| 0 <= j < entries@.len() ==> #[trigger] entries@.push(
                    (key, val),
                )[j] == entries@[j]);
                assert(entries@.push((key, val))[entries@.len() as int] == (key, val));
            }
            lemma_enc_tbody_snoc(sofar, e);
            lemma_wf_entries_snoc(sofar, e);
            crate::wire::lemma_subrange_concat(b@, pos + 4, cur as int, kend as int);
            crate::wire::lemma_subrange_concat(b@, pos + 4, kend as int, vend as int);
            assert(b@.subrange(pos + 4, vend as int) == enc_tbody(sofar.push(e)));
        }
        entries.push((key, val));
        cur = vend;
    }
    let ghost tm = table_model(entries@);
    let ft = FieldTable(entries);
    proof {
        assert(enc_tbody(tm).len() == size);
        crate::wire::lemma_subrange_concat(b@, pos as int, pos + 4, end as int);
        assert(b@.subrange(pos as int, end as int) == enc_table(tm));
    }
    Ok((ft, end))
}

} // verus!
