//! Fixed-width big-endian integer codecs over byte buffers, and the seq-level
//! vocabulary the contracts of the whole crate are written in.

use vstd::prelude::*;

verus! {

// ---------------------------------------------------------------------------
// Spec: big-endian byte forms of the fixed-width integers.
// ---------------------------------------------------------------------------

pub open spec fn be16(x: u16) -> Seq<u8> {
    seq![(x / 0x100) as u8, (x % 0x100) as u8]
}

pub open spec fn be32(x: u32) -> Seq<u8> {
    seq![
        (x / 0x1000000) as u8,
        ((x / 0x10000) % 0x100) as u8,
        ((x / 0x100) % 0x100) as u8,
        (x % 0x100) as u8,
    ]
}

pub open spec fn be64(x: u64) -> Seq<u8> {
    seq![
        (x / 0x100000000000000) as u8,
        ((x / 0x1000000000000) % 0x100) as u8,
        ((x / 0x10000000000) % 0x100) as u8,
        ((x / 0x100000000) % 0x100) as u8,
        ((x / 0x1000000) % 0x100) as u8,
        ((x / 0x10000) % 0x100) as u8,
        ((x / 0x100) % 0x100) as u8,
        (x % 0x100) as u8,
    ]
}

/// The value a 2-byte big-endian slice denotes.
pub open spec fn be16_val(b: Seq<u8>) -> u16
    recommends
        b.len() == 2,
{
    (b[0] as int * 0x100 + b[1] as int) as u16
}

/// The value a 4-byte big-endian slice denotes.
pub open spec fn be32_val(b: Seq<u8>) -> u32
    recommends
        b.len() == 4,
{
    (b[0] as int * 0x1000000 + b[1] as int * 0x10000 + b[2] as int * 0x100 + b[3] as int) as u32
}

/// The value an 8-byte big-endian slice denotes.
pub open spec fn be64_val(b: Seq<u8>) -> u64
    recommends
        b.len() == 8,
{
    (b[0] as int * 0x100000000000000 + b[1] as int * 0x1000000000000 + b[2] as int * 0x10000000000
        + b[3] as int * 0x100000000 + b[4] as int * 0x1000000 + b[5] as int * 0x10000
        + b[6] as int * 0x100 + b[7] as int) as u64
}

/// `chunk` occurs in `b` starting at `pos`.
pub open spec fn prefix_at(b: Seq<u8>, pos: int, chunk: Seq<u8>) -> bool {
    0 <= pos && pos + chunk.len() <= b.len() && b.subrange(pos, pos + chunk.len()) == chunk
}

// ---------------------------------------------------------------------------
// Spec: two's-complement views of the signed integers.
// ---------------------------------------------------------------------------

pub open spec fn u8_of_i8(x: i8) -> u8 {
    if x >= 0 {
        x as u8
    } else {
        (x + 0x100) as u8
    }
}

pub open spec fn i8_of_u8(v: u8) -> i8 {
    if v < 0x80 {
        v as i8
    } else {
        (v - 0x100) as i8
    }
}

pub open spec fn u16_of_i16(x: i16) -> u16 {
    if x >= 0 {
        x as u16
    } else {
        (x + 0x10000) as u16
    }
}

pub open spec fn i16_of_u16(v: u16) -> i16 {
    if v < 0x8000 {
        v as i16
    } else {
        (v - 0x10000) as i16
    }
}

pub open spec fn u32_of_i32(x: i32) -> u32 {
    if x >= 0 {
        x as u32
    } else {
        (x + 0x100000000) as u32
    }
}

pub open spec fn i32_of_u32(v: u32) -> i32 {
    if v < 0x80000000 {
        v as i32
    } else {
        (v - 0x100000000) as i32
    }
}

pub open spec fn u64_of_i64(x: i64) -> u64 {
    if x >= 0 {
        x as u64
    } else {
        (x + 0x10000000000000000) as u64
    }
}

pub open spec fn i64_of_u64(v: u64) -> i64 {
    if v < 0x8000000000000000 {
        v as i64
    } else {
        (v - 0x10000000000000000) as i64
    }
}

// ---------------------------------------------------------------------------
// Lemmas: the byte forms and the value forms are inverses, so each is
// injective.
// ---------------------------------------------------------------------------

pub proof fn lemma_be16_val(x: u16)
    ensures
        be16_val(be16(x)) == x,
{
}

pub proof fn lemma_be32_val(x: u32)
    ensures
        be32_val(be32(x)) == x,
{
}

pub proof fn lemma_be64_val(x: u64)
    ensures
        be64_val(be64(x)) == x,
{
    assert(x == (x / 0x100000000000000) * 0x100000000000000
        + ((x / 0x1000000000000) % 0x100) * 0x1000000000000
        + ((x / 0x10000000000) % 0x100) * 0x10000000000
        + ((x / 0x100000000) % 0x100) * 0x100000000
        + ((x / 0x1000000) % 0x100) * 0x1000000
        + ((x / 0x10000) % 0x100) * 0x10000
        + ((x / 0x100) % 0x100) * 0x100
        + x % 0x100) by (bit_vector);
}

pub proof fn lemma_be16_inj(x: u16, y: u16)
    requires
        be16(x) == be16(y),
    ensures
        x == y,
{
    lemma_be16_val(x);
    lemma_be16_val(y);
}

pub proof fn lemma_be32_inj(x: u32, y: u32)
    requires
        be32(x) == be32(y),
    ensures
        x == y,
{
    lemma_be32_val(x);
    lemma_be32_val(y);
}

pub proof fn lemma_be64_inj(x: u64, y: u64)
    requires
        be64(x) == be64(y),
    ensures
        x == y,
{
    lemma_be64_val(x);
    lemma_be64_val(y);
}

/// Adjacent subranges concatenate to the enclosing subrange.
pub proof fn lemma_subrange_concat(b: Seq<u8>, a: int, m: int, c: int)
    requires
        0 <= a <= m <= c <= b.len(),
    ensures
        b.subrange(a, c) == b.subrange(a, m) + b.subrange(m, c),
{
    assert(b.subrange(a, c) =~= b.subrange(a, m) + b.subrange(m, c));
}

// ---------------------------------------------------------------------------
// Exec: writers.  Each states exactly the bytes it appends.
// ---------------------------------------------------------------------------

pub fn put_u8(dst: &mut Vec<u8>, x: u8)
    ensures
        final(dst)@ == old(dst)@ + seq![x],
{
    dst.push(x);
    assert(dst@ =~= old(dst)@ + seq![x]);
}

pub fn put_u16(dst: &mut Vec<u8>, x: u16)
    ensures
        final(dst)@ == old(dst)@ + be16(x),
{
    dst.push((x / 0x100) as u8);
    dst.push((x % 0x100) as u8);
    assert(dst@ =~= old(dst)@ + be16(x));
}

pub fn put_u32(dst: &mut Vec<u8>, x: u32)
    ensures
        final(dst)@ == old(dst)@ + be32(x),
{
    dst.push((x / 0x1000000) as u8);
    dst.push(((x / 0x10000) % 0x100) as u8);
    dst.push(((x / 0x100) % 0x100) as u8);
    dst.push((x % 0x100) as u8);
    assert(dst@ =~= old(dst)@ + be32(x));
}

pub fn put_u64(dst: &mut Vec<u8>, x: u64)
    ensures
        final(dst)@ == old(dst)@ + be64(x),
{
    dst.push((x / 0x100000000000000) as u8);
    dst.push(((x / 0x1000000000000) % 0x100) as u8);
    dst.push(((x / 0x10000000000) % 0x100) as u8);
    dst.push(((x / 0x100000000) % 0x100) as u8);
    dst.push(((x / 0x1000000) % 0x100) as u8);
    dst.push(((x / 0x10000) % 0x100) as u8);
    dst.push(((x / 0x100) % 0x100) as u8);
    dst.push((x % 0x100) as u8);
    assert(dst@ =~= old(dst)@ + be64(x));
}

/// Append all of `src` to `dst`.
pub fn push_all(dst: &mut Vec<u8>, src: &Vec<u8>)
    ensures
        final(dst)@ == old(dst)@ + src@,
{
    let n = src.len();
    let mut i: usize = 0;
    while i < n
        invariant
            i <= n,
            n == src@.len(),
            dst@ == old(dst)@ + src@.subrange(0, i as int),
        decreases n - i,
    {
        dst.push(src[i]);
        assert(dst@ =~= old(dst)@ + src@.subrange(0, i + 1 as int));
        i = i + 1;
    }
    assert(src@.subrange(0, n as int) =~= src@);
}

/// Copy `src[from..to]` into a fresh vector.
pub fn subvec(src: &Vec<u8>, from: usize, to: usize) -> (r: Vec<u8>)
    requires
        from <= to <= src@.len(),
    ensures
        r@ == src@.subrange(from as int, to as int),
{
    let mut r: Vec<u8> = Vec::new();
    let mut i: usize = from;
    while i < to
        invariant
            from <= i <= to <= src@.len(),
            r@ == src@.subrange(from as int, i as int),
        decreases to - i,
    {
        r.push(src[i]);
        assert(r@ =~= src@.subrange(from as int, i + 1 as int));
        i = i + 1;
    }
    r
}

// ---------------------------------------------------------------------------
// Exec: readers.  Each returns the denoted value and identifies the bytes it
// read with the byte form of that value.
// ---------------------------------------------------------------------------

pub fn get_u8(b: &Vec<u8>, pos: usize) -> (r: u8)
    requires
        pos < b@.len(),
    ensures
        r == b@[pos as int],
        b@.subrange(pos as int, pos + 1) == seq![r],
{
    let r = b[pos];
    assert(b@.subrange(pos as int, pos + 1) =~= seq![r]);
    r
}

pub fn get_u16(b: &Vec<u8>, pos: usize) -> (r: u16)
    requires
        pos + 2 <= b@.len(),
    ensures
        r == be16_val(b@.subrange(pos as int, pos + 2)),
        be16(r) == b@.subrange(pos as int, pos + 2),
{
    let n = b.len();
    let r = (b[pos] as u16) * 0x100 + (b[pos + 1] as u16);
    assert(be16(r) =~= b@.subrange(pos as int, pos + 2));
    r
}

pub fn get_u32(b: &Vec<u8>, pos: usize) -> (r: u32)
    requires
        pos + 4 <= b@.len(),
    ensures
        r == be32_val(b@.subrange(pos as int, pos + 4)),
        be32(r) == b@.subrange(pos as int, pos + 4),
{
    let n = b.len();
    let b0 = b[pos];
    let b1 = b[pos + 1];
    let b2 = b[pos + 2];
    let b3 = b[pos + 3];
    let r = (b0 as u32) * 0x1000000 + (b1 as u32) * 0x10000 + (b2 as u32) * 0x100 + (b3 as u32);
    proof {
        assert(r / 0x1000000 == b0 as u32 && (r / 0x10000) % 0x100 == b1 as u32
            && (r / 0x100) % 0x100 == b2 as u32 && r % 0x100 == b3 as u32) by (bit_vector)
            requires
                r == (b0 as u32) * 0x1000000 + (b1 as u32) * 0x10000 + (b2 as u32) * 0x100 + (
                b3 as u32),
        ;
        assert(be32(r) =~= b@.subrange(pos as int, pos + 4));
    }
    r
}

pub fn get_u64(b: &Vec<u8>, pos: usize) -> (r: u64)
    requires
        pos + 8 <= b@.len(),
    ensures
        r == be64_val(b@.subrange(pos as int, pos + 8)),
        be64(r) == b@.subrange(pos as int, pos + 8),
{
    let n = b.len();
    let b0 = b[pos];
    let b1 = b[pos + 1];
    let b2 = b[pos + 2];
    let b3 = b[pos + 3];
    let b4 = b[pos + 4];
    let b5 = b[pos + 5];
    let b6 = b[pos + 6];
    let b7 = b[pos + 7];
    let r = (b0 as u64) * 0x100000000000000 + (b1 as u64) * 0x1000000000000
        + (b2 as u64) * 0x10000000000 + (b3 as u64) * 0x100000000 + (b4 as u64) * 0x1000000 + (
    b5 as u64) * 0x10000 + (b6 as u64) * 0x100 + (b7 as u64);
    proof {
        assert(r / 0x100000000000000 == b0 as u64 && (r / 0x1000000000000) % 0x100 == b1 as u64
            && (r / 0x10000000000) % 0x100 == b2 as u64 && (r / 0x100000000) % 0x100 == b3 as u64
            && (r / 0x1000000) % 0x100 == b4 as u64 && (r / 0x10000) % 0x100 == b5 as u64
            && (r / 0x100) % 0x100 == b6 as u64 && r % 0x100 == b7 as u64) by (bit_vector)
            requires
                r == (b0 as u64) * 0x100000000000000 + (b1 as u64) * 0x1000000000000 + (
                b2 as u64) * 0x10000000000 + (b3 as u64) * 0x100000000 + (b4 as u64) * 0x1000000
                    + (b5 as u64) * 0x10000 + (b6 as u64) * 0x100 + (b7 as u64),
        ;
        assert(be64(r) =~= b@.subrange(pos as int, pos + 8));
    }
    r
}

// ---------------------------------------------------------------------------
// Exec: two's-complement conversions.
// ---------------------------------------------------------------------------

pub fn to_u8_bits(x: i8) -> (r: u8)
    ensures
        r == u8_of_i8(x),
{
    if x >= 0 {
        x as u8
    } else {
        ((x as i16) + 0x100) as u8
    }
}

pub fn from_u8_bits(v: u8) -> (r: i8)
    ensures
        r == i8_of_u8(v),
{
    if v < 0x80 {
        v as i8
    } else {
        ((v as i16) - 0x100) as i8
    }
}

pub fn to_u16_bits(x: i16) -> (r: u16)
    ensures
        r == u16_of_i16(x),
{
    if x >= 0 {
        x as u16
    } else {
        ((x as i32) + 0x10000) as u16
    }
}

pub fn from_u16_bits(v: u16) -> (r: i16)
    ensures
        r == i16_of_u16(v),
{
    if v < 0x8000 {
        v as i16
    } else {
        ((v as i32) - 0x10000) as i16
    }
}

pub fn to_u32_bits(x: i32) -> (r: u32)
    ensures
        r == u32_of_i32(x),
{
    if x >= 0 {
        x as u32
    } else {
        ((x as i64) + 0x100000000) as u32
    }
}

pub fn from_u32_bits(v: u32) -> (r: i32)
    ensures
        r == i32_of_u32(v),
{
    if v < 0x80000000 {
        v as i32
    } else {
        ((v as i64) - 0x100000000) as i32
    }
}

pub fn to_u64_bits(x: i64) -> (r: u64)
    ensures
        r == u64_of_i64(x),
{
    if x >= 0 {
        x as u64
    } else {
        ((x as i128) + 0x10000000000000000) as u64
    }
}

pub fn from_u64_bits(v: u64) -> (r: i64)
    ensures
        r == i64_of_u64(v),
{
    if v < 0x8000000000000000 {
        v as i64
    } else {
        ((v as i128) - 0x10000000000000000) as i64
    }
}

// Round-trip facts for the signed views.

pub proof fn lemma_u8_bits_inv(v: u8)
    ensures
        u8_of_i8(i8_of_u8(v)) == v,
{
}

pub proof fn lemma_u16_bits_inv(v: u16)
    ensures
        u16_of_i16(i16_of_u16(v)) == v,
{
}

pub proof fn lemma_u32_bits_inv(v: u32)
    ensures
        u32_of_i32(i32_of_u32(v)) == v,
{
}

pub proof fn lemma_u64_bits_inv(v: u64)
    ensures
        u64_of_i64(i64_of_u64(v)) == v,
{
}

pub proof fn lemma_i16_bits(x: i16)
    ensures
        i16_of_u16(u16_of_i16(x)) == x,
{
}

pub proof fn lemma_i32_bits(x: i32)
    ensures
        i32_of_u32(u32_of_i32(x)) == x,
{
}

pub proof fn lemma_i64_bits(x: i64)
    ensures
        i64_of_u64(u64_of_i64(x)) == x,
{
}

// ---------------------------------------------------------------------------
// Length-prefixed strings: a short string carries a u8 length, a long string
// a u32 length, each followed by the raw bytes.
// ---------------------------------------------------------------------------

pub open spec fn enc_sstr(s: Seq<u8>) -> Seq<u8>
    recommends
        s.len() <= 255,
{
    seq![s.len() as u8] + s
}

pub open spec fn enc_lstr(s: Seq<u8>) -> Seq<u8>
    recommends
        s.len() <= 0xFFFFFFFF,
{
    be32(s.len() as u32) + s
}


/// Splitting a concatenation at matching lengths recovers both halves.
pub proof fn lemma_concat_split(x1: Seq<u8>, y1: Seq<u8>, x2: Seq<u8>, y2: Seq<u8>)
    requires
        x1 + y1 == x2 + y2,
        x1.len() == x2.len(),
    ensures
        x1 == x2,
        y1 == y2,
{
    let a = x1 + y1;
    let b = x2 + y2;
    assert(a.len() == x1.len() + y1.len());
    assert(b.len() == x2.len() + y2.len());
    assert(a.len() == b.len());
    assert(y1.len() == y2.len());
    assert(x1 =~= x2) by {
        assert(forall|i: int| 0 <= i < x1.len() ==> x1[i] == a[i] && x2[i] == b[i]);
    }
    assert(y1 =~= y2) by {
        assert(forall|i: int| 0 <= i < y1.len()
            ==> y1[i] == a[x1.len() + i] && y2[i] == b[x2.len() + i]);
    }
}

/// A short-string encoding standing at one position determines the string and
/// what follows it.
pub proof fn lemma_sstr_prefix(s1: Seq<u8>, s2: Seq<u8>, r1: Seq<u8>, r2: Seq<u8>)
    requires
        s1.len() <= 255,
        s2.len() <= 255,
        enc_sstr(s1) + r1 == enc_sstr(s2) + r2,
    ensures
        s1 == s2,
        r1 == r2,
{
    let a = enc_sstr(s1) + r1;
    let b = enc_sstr(s2) + r2;
    assert(a[0] == s1.len() as u8 && b[0] == s2.len() as u8);
    assert(s1.len() == s2.len());
    assert(enc_sstr(s1).len() == 1 + s1.len());
    assert(enc_sstr(s2).len() == 1 + s2.len());
    assert(s1 =~= s2) by {
        assert(forall|i: int| 0 <= i < s1.len() ==> s1[i] == a[1 + i] && s2[i] == b[1 + i]);
    }
    assert(a.len() == enc_sstr(s1).len() + r1.len());
    assert(b.len() == enc_sstr(s2).len() + r2.len());
    assert(a.len() == b.len());
    assert(r1.len() == r2.len());
    assert(r1 =~= r2) by {
        assert(forall|i: int| 0 <= i < r1.len()
            ==> r1[i] == a[1 + s1.len() + i] && r2[i] == b[1 + s2.len() + i]);
    }
}

/// A long-string encoding standing at one position determines the string and
/// what follows it.
pub proof fn lemma_lstr_prefix(s1: Seq<u8>, s2: Seq<u8>, r1: Seq<u8>, r2: Seq<u8>)
    requires
        s1.len() <= 0xFFFFFFFF,
        s2.len() <= 0xFFFFFFFF,
        enc_lstr(s1) + r1 == enc_lstr(s2) + r2,
    ensures
        s1 == s2,
        r1 == r2,
{
    let a = enc_lstr(s1) + r1;
    let b = enc_lstr(s2) + r2;
    assert(be32(s1.len() as u32) =~= a.subrange(0, 4)) by {
        assert(forall|i: int| 0 <= i < 4 ==> be32(s1.len() as u32)[i] == a[i]);
    }
    assert(be32(s2.len() as u32) =~= b.subrange(0, 4)) by {
        assert(forall|i: int| 0 <= i < 4 ==> be32(s2.len() as u32)[i] == b[i]);
    }
    lemma_be32_inj(s1.len() as u32, s2.len() as u32);
    assert(s1.len() == s2.len());
    assert(enc_lstr(s1).len() == 4 + s1.len());
    assert(enc_lstr(s2).len() == 4 + s2.len());
    assert(s1 =~= s2) by {
        assert(forall|i: int| 0 <= i < s1.len() ==> s1[i] == a[4 + i] && s2[i] == b[4 + i]);
    }
    assert(a.len() == enc_lstr(s1).len() + r1.len());
    assert(b.len() == enc_lstr(s2).len() + r2.len());
    assert(a.len() == b.len());
    assert(r1.len() == r2.len());
    assert(r1 =~= r2) by {
        assert(forall|i: int| 0 <= i < r1.len()
            ==> r1[i] == a[4 + s1.len() + i] && r2[i] == b[4 + s2.len() + i]);
    }
}

/// Append the short-string encoding of `s`.
pub fn put_sstr_bytes(dst: &mut Vec<u8>, s: &Vec<u8>)
    requires
        s@.len() <= 255,
    ensures
        final(dst)@ == old(dst)@ + enc_sstr(s@),
{
    let ghost d0 = dst@;
    put_u8(dst, s.len() as u8);
    push_all(dst, s);
    assert(dst@ =~= d0 + enc_sstr(s@));
}

/// Append the long-string encoding of `s`.
pub fn put_lstr_bytes(dst: &mut Vec<u8>, s: &Vec<u8>)
    requires
        s@.len() <= 0xFFFFFFFF,
    ensures
        final(dst)@ == old(dst)@ + enc_lstr(s@),
{
    let ghost d0 = dst@;
    put_u32(dst, s.len() as u32);
    push_all(dst, s);
    assert(dst@ =~= d0 + enc_lstr(s@));
}

/// Read a short string at `pos`: fails exactly when the length prefix runs
/// past the end of the buffer.
pub fn read_sstr_bytes(b: &Vec<u8>, pos: usize) -> (r: Result<(Vec<u8>, usize), crate::errors::DecodeError>)
    requires
        pos <= b@.len(),
    ensures
        match r {
            Ok(p) => {
                &&& pos < p.1 <= b@.len()
                &&& p.0@.len() <= 255
                &&& b@.subrange(pos as int, p.1 as int) == enc_sstr(p.0@)
            },
            Err(e) => {
                &&& e == crate::errors::DecodeError::PayloadTruncated
                &&& (pos == b@.len() || pos + 1 + b@[pos as int] > b@.len())
            },
        },
{
    let n = b.len();
    if pos >= n {
        return Err(crate::errors::DecodeError::PayloadTruncated);
    }
    let len = b[pos] as usize;
    if len > n - (pos + 1) {
        return Err(crate::errors::DecodeError::PayloadTruncated);
    }
    let s = subvec(b, pos + 1, pos + 1 + len);
    let end = pos + 1 + len;
    proof {
        assert(b@.subrange(pos as int, end as int) =~= enc_sstr(s@));
    }
    Ok((s, end))
}

/// Read a long string at `pos`: fails exactly when the length prefix runs
/// past the end of the buffer.
pub fn read_lstr_bytes(b: &Vec<u8>, pos: usize) -> (r: Result<(Vec<u8>, usize), crate::errors::DecodeError>)
    requires
        pos <= b@.len(),
    ensures
        match r {
            Ok(p) => {
                &&& pos < p.1 <= b@.len()
                &&& p.0@.len() <= 0xFFFFFFFF
                &&& b@.subrange(pos as int, p.1 as int) == enc_lstr(p.0@)
            },
            Err(e) => {
                &&& e == crate::errors::DecodeError::PayloadTruncated
                &&& (pos + 4 > b@.len() || pos + 4 + be32_val(
                    b@.subrange(pos as int, pos + 4),
                ) > b@.len())
            },
        },
{
    let n = b.len();
    if n - pos < 4 {
        return Err(crate::errors::DecodeError::PayloadTruncated);
    }
    let len_u32 = get_u32(b, pos);
    let len = len_u32 as usize;
    if len > n - (pos + 4) {
        return Err(crate::errors::DecodeError::PayloadTruncated);
    }
    let s = subvec(b, pos + 4, pos + 4 + len);
    let end = pos + 4 + len;
    proof {
        assert(b@.subrange(pos as int, end as int) =~= enc_lstr(s@)) by {
            assert(b@.subrange(pos as int, pos + 4) == be32(len_u32));
            assert(s@.len() == len_u32);
            assert(forall|i: int| 0 <= i < 4
                ==> b@.subrange(pos as int, end as int)[i] == b@.subrange(pos as int, pos + 4)[i]);
            assert(forall|i: int| 0 <= i < len
                ==> b@.subrange(pos as int, end as int)[4 + i] == s@[i]);
        }
    }
    Ok((s, end))
}

} // verus!
