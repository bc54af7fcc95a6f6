//! Typed method arguments.
//!
//! Every AMQP method carries a fixed sequence of arguments whose types are
//! given by a closed per-method schema.  The codec here encodes and decodes
//! such a sequence against its schema; the per-method code only converts
//! between method records and argument lists.

use vstd::prelude::*;
use vstd::utf8::valid_utf8;

use crate::args::{
    AmqpString, FieldTable, TableModel, table_model, wf_table, enc_table, enc_tbody,
    decode_field_table, encode_field_table, lemma_tbody_exact, lemma_table_header, field_error,
};
use crate::errors::{DecodeError, EncodeError};
use crate::wire::{
    be16, be32, be64, be32_val, enc_sstr, enc_lstr, prefix_at, put_u8, put_u16, put_u32, put_u64,
};

verus! {

/// The argument types a schema can ask for.  A `Bits` entry stands for one
/// octet holding a whole run of packed bit fields.
#[derive(Clone, Copy, Debug, PartialEq, Eq, Structural)]
pub enum ArgumentDecodingInfo {
    Octet,
    Short,
    Long,
    LongLong,
    Bits,
    ShortString,
    LongString,
    Timestamp,
    FieldTable,
}

/// One decoded argument.
#[derive(Debug, PartialEq)]
pub enum Argument {
    Octet(u8),
    Short(u16),
    Long(u32),
    LongLong(u64),
    Bits(u8),
    ShortString(AmqpString),
    LongString(AmqpString),
    Timestamp(u64),
    FieldTable(FieldTable),
}

/// An argument list.
#[derive(Debug, PartialEq)]
pub struct Arguments(pub Vec<Argument>);

/// Spec-level model of one argument.
pub enum ArgModel {
    Octet(u8),
    Short(u16),
    Long(u32),
    LongLong(u64),
    Bits(u8),
    ShortString(Seq<u8>),
    LongString(Seq<u8>),
    Timestamp(u64),
    FieldTable(TableModel),
}

pub open spec fn arg_model(a: Argument) -> ArgModel {
    match a {
        Argument::Octet(x) => ArgModel::Octet(x),
        Argument::Short(x) => ArgModel::Short(x),
        Argument::Long(x) => ArgModel::Long(x),
        Argument::LongLong(x) => ArgModel::LongLong(x),
        Argument::Bits(x) => ArgModel::Bits(x),
        Argument::ShortString(s) => ArgModel::ShortString(s@),
        Argument::LongString(s) => ArgModel::LongString(s@),
        Argument::Timestamp(x) => ArgModel::Timestamp(x),
        Argument::FieldTable(t) => ArgModel::FieldTable(table_model(t.0@)),
    }
}

pub open spec fn args_model(s: Seq<Argument>) -> Seq<ArgModel> {
    Seq::new(s.len(), |i: int| arg_model(s[i]))
}

/// The schema entry an argument answers to.
pub open spec fn arg_ty(m: ArgModel) -> ArgumentDecodingInfo {
    match m {
        ArgModel::Octet(_) => ArgumentDecodingInfo::Octet,
        ArgModel::Short(_) => ArgumentDecodingInfo::Short,
        ArgModel::Long(_) => ArgumentDecodingInfo::Long,
        ArgModel::LongLong(_) => ArgumentDecodingInfo::LongLong,
        ArgModel::Bits(_) => ArgumentDecodingInfo::Bits,
        ArgModel::ShortString(_) => ArgumentDecodingInfo::ShortString,
        ArgModel::LongString(_) => ArgumentDecodingInfo::LongString,
        ArgModel::Timestamp(_) => ArgumentDecodingInfo::Timestamp,
        ArgModel::FieldTable(_) => ArgumentDecodingInfo::FieldTable,
    }
}

/// `args_model` is the pointwise model of the arguments.
pub proof fn lemma_args_model_index(s: Seq<Argument>)
    ensures
        args_model(s).len() == s.len(),
        forall|i: int| 0 <= i < s.len() ==> #[trigger] args_model(s)[i] == arg_model(s[i]),
{
}

pub open spec fn args_match(ms: Seq<ArgModel>, tys: Seq<ArgumentDecodingInfo>) -> bool {
    ms.len() == tys.len() && forall|i: int| 0 <= i < ms.len() ==> arg_ty(#[trigger] ms[i]) == tys[i]
}

pub open spec fn wf_arg(m: ArgModel) -> bool {
    match m {
        ArgModel::ShortString(s) => s.len() <= 255 && valid_utf8(s),
        ArgModel::LongString(s) => s.len() <= 0xFFFFFFFF && valid_utf8(s),
        ArgModel::FieldTable(t) => wf_table(t),
        _ => true,
    }
}

pub open spec fn wf_args(ms: Seq<ArgModel>) -> bool {
    forall|i: int| 0 <= i < ms.len() ==> wf_arg(#[trigger] ms[i])
}

/// The encoding of one argument (schemas are positional, so there is no tag).
pub open spec fn enc_arg(m: ArgModel) -> Seq<u8> {
    match m {
        ArgModel::Octet(x) => seq![x],
        ArgModel::Short(x) => be16(x),
        ArgModel::Long(x) => be32(x),
        ArgModel::LongLong(x) => be64(x),
        ArgModel::Bits(x) => seq![x],
        ArgModel::ShortString(s) => enc_sstr(s),
        ArgModel::LongString(s) => enc_lstr(s),
        ArgModel::Timestamp(x) => be64(x),
        ArgModel::FieldTable(t) => enc_table(t),
    }
}

/// The encoding of an argument list: the argument encodings in order.
pub open spec fn enc_args(ms: Seq<ArgModel>) -> Seq<u8>
    decreases ms.len(),
{
    if ms.len() == 0 {
        Seq::empty()
    } else {
        enc_arg(ms[0]) + enc_args(ms.subrange(1, ms.len() as int))
    }
}

/// Appending one argument appends its encoding.
pub proof fn lemma_enc_args_snoc(ms: Seq<ArgModel>, m: ArgModel)
    ensures
        enc_args(ms.push(m)) == enc_args(ms) + enc_arg(m),
    decreases ms.len(),
{
    let s2 = ms.push(m);
    if ms.len() == 0 {
        assert(s2.subrange(1, s2.len() as int) =~= Seq::<ArgModel>::empty());
        assert(s2[0] == m);
        assert(enc_args(s2.subrange(1, s2.len() as int)) == Seq::<u8>::empty());
        assert(enc_args(s2) =~= enc_args(ms) + enc_arg(m));
    } else {
        let tail = ms.subrange(1, ms.len() as int);
        assert(s2.subrange(1, s2.len() as int) =~= tail.push(m));
        lemma_enc_args_snoc(tail, m);
        assert(s2[0] == ms[0]);
        let a = enc_arg(ms[0]);
        let c = enc_args(tail);
        let f = enc_arg(m);
        assert(enc_args(s2) == a + (c + f));
        assert(a + (c + f) =~= (a + c) + f);
        assert(enc_args(s2) == enc_args(ms) + enc_arg(m));
    }
}

/// An argument-list encoding against a schema, followed by arbitrary bytes,
/// determines the arguments and the following bytes.
pub proof fn lemma_args_prefix(
    ms1: Seq<ArgModel>,
    ms2: Seq<ArgModel>,
    tys: Seq<ArgumentDecodingInfo>,
    r1: Seq<u8>,
    r2: Seq<u8>,
)
    requires
        wf_args(ms1),
        wf_args(ms2),
        args_match(ms1, tys),
        args_match(ms2, tys),
        enc_args(ms1) + r1 == enc_args(ms2) + r2,
    ensures
        ms1 == ms2,
        r1 == r2,
    decreases tys.len(),
{
    if tys.len() == 0 {
        assert(ms1 =~= ms2);
        assert(enc_args(ms1) + r1 =~= r1);
        assert(enc_args(ms2) + r2 =~= r2);
    } else {
        let m1 = ms1[0];
        let m2 = ms2[0];
        let t1 = ms1.subrange(1, ms1.len() as int);
        let t2 = ms2.subrange(1, ms2.len() as int);
        let tt = tys.subrange(1, tys.len() as int);
        assert(arg_ty(m1) == tys[0] && arg_ty(m2) == tys[0]);
        assert((enc_arg(m1) + enc_args(t1)) + r1 == (enc_arg(m2) + enc_args(t2)) + r2);
        assert((enc_arg(m1) + enc_args(t1)) + r1 =~= enc_arg(m1) + (enc_args(t1) + r1));
        assert((enc_arg(m2) + enc_args(t2)) + r2 =~= enc_arg(m2) + (enc_args(t2) + r2));
        lemma_arg_prefix(m1, m2, enc_args(t1) + r1, enc_args(t2) + r2);
        assert(args_match(t1, tt) && args_match(t2, tt)) by {
            assert(forall|i: int| 0 <= i < t1.len() ==> #[trigger] t1[i] == ms1[i + 1]);
            assert(forall|i: int| 0 <= i < t2.len() ==> #[trigger] t2[i] == ms2[i + 1]);
        }
        assert(wf_args(t1) && wf_args(t2)) by {
            assert(forall|i: int| 0 <= i < t1.len() ==> #[trigger] t1[i] == ms1[i + 1]);
            assert(forall|i: int| 0 <= i < t2.len() ==> #[trigger] t2[i] == ms2[i + 1]);
        }
        lemma_args_prefix(t1, t2, tt, r1, r2);
        assert(ms1 =~= ms2) by {
            assert(forall|i: int| 1 <= i < ms1.len() ==> ms1[i] == t1[i - 1] && ms2[i] == t2[i
                - 1]);
        }
    }
}

/// One argument encoding of a known schema type, followed by arbitrary
/// bytes, determines the argument and the following bytes.
pub proof fn lemma_arg_prefix(m1: ArgModel, m2: ArgModel, r1: Seq<u8>, r2: Seq<u8>)
    requires
        wf_arg(m1),
        wf_arg(m2),
        arg_ty(m1) == arg_ty(m2),
        enc_arg(m1) + r1 == enc_arg(m2) + r2,
    ensures
        m1 == m2,
        r1 == r2,
{
    match (m1, m2) {
        (ArgModel::Octet(x1), ArgModel::Octet(x2)) => {
            crate::wire::lemma_concat_split(seq![x1], r1, seq![x2], r2);
            assert(seq![x1][0] == seq![x2][0]);
        },
        (ArgModel::Short(x1), ArgModel::Short(x2)) => {
            crate::wire::lemma_concat_split(be16(x1), r1, be16(x2), r2);
            crate::wire::lemma_be16_inj(x1, x2);
        },
        (ArgModel::Long(x1), ArgModel::Long(x2)) => {
            crate::wire::lemma_concat_split(be32(x1), r1, be32(x2), r2);
            crate::wire::lemma_be32_inj(x1, x2);
        },
        (ArgModel::LongLong(x1), ArgModel::LongLong(x2)) => {
            crate::wire::lemma_concat_split(be64(x1), r1, be64(x2), r2);
            crate::wire::lemma_be64_inj(x1, x2);
        },
        (ArgModel::Bits(x1), ArgModel::Bits(x2)) => {
            crate::wire::lemma_concat_split(seq![x1], r1, seq![x2], r2);
            assert(seq![x1][0] == seq![x2][0]);
        },
        (ArgModel::ShortString(s1), ArgModel::ShortString(s2)) => {
            crate::wire::lemma_sstr_prefix(s1, s2, r1, r2);
        },
        (ArgModel::LongString(s1), ArgModel::LongString(s2)) => {
            crate::wire::lemma_lstr_prefix(s1, s2, r1, r2);
        },
        (ArgModel::Timestamp(x1), ArgModel::Timestamp(x2)) => {
            crate::wire::lemma_concat_split(be64(x1), r1, be64(x2), r2);
            crate::wire::lemma_be64_inj(x1, x2);
        },
        (ArgModel::FieldTable(t1), ArgModel::FieldTable(t2)) => {
            let l1 = enc_tbody(t1).len() as u32;
            let l2 = enc_tbody(t2).len() as u32;
            assert((be32(l1) + enc_tbody(t1)) + r1 =~= be32(l1) + (enc_tbody(t1) + r1));
            assert((be32(l2) + enc_tbody(t2)) + r2 =~= be32(l2) + (enc_tbody(t2) + r2));
            crate::wire::lemma_concat_split(
                be32(l1),
                enc_tbody(t1) + r1,
                be32(l2),
                enc_tbody(t2) + r2,
            );
            crate::wire::lemma_be32_inj(l1, l2);
            assert(enc_tbody(t1).len() == enc_tbody(t2).len());
            crate::wire::lemma_concat_split(enc_tbody(t1), r1, enc_tbody(t2), r2);
            lemma_tbody_exact(t1, t2);
        },
        _ => {
            assert(false);
        },
    }
}

/// Encoding distributes over concatenation of argument lists.
pub proof fn lemma_enc_args_concat(x: Seq<ArgModel>, y: Seq<ArgModel>)
    ensures
        enc_args(x + y) == enc_args(x) + enc_args(y),
    decreases x.len(),
{
    if x.len() == 0 {
        assert(x + y =~= y);
        assert(enc_args(x) + enc_args(y) =~= enc_args(y));
    } else {
        let tail = x.subrange(1, x.len() as int);
        lemma_enc_args_concat(tail, y);
        assert((x + y).subrange(1, (x + y).len() as int) =~= tail + y);
        assert((x + y)[0] == x[0]);
        assert(enc_args(x + y) == enc_arg(x[0]) + (enc_args(tail) + enc_args(y)));
        assert(enc_arg(x[0]) + (enc_args(tail) + enc_args(y)) =~= (enc_arg(x[0]) + enc_args(tail))
            + enc_args(y));
    }
}

/// An argument-list encoding splits at any argument boundary.
pub proof fn lemma_enc_args_split(ms: Seq<ArgModel>, k: int)
    requires
        0 <= k <= ms.len(),
    ensures
        enc_args(ms) == enc_args(ms.subrange(0, k)) + enc_args(ms.subrange(k, ms.len() as int)),
    decreases k,
{
    if k == 0 {
        assert(ms.subrange(0, 0) =~= Seq::<ArgModel>::empty());
        assert(ms.subrange(0, ms.len() as int) =~= ms);
        assert(enc_args(ms.subrange(0, 0)) + enc_args(ms) =~= enc_args(ms));
    } else {
        let tail = ms.subrange(1, ms.len() as int);
        lemma_enc_args_split(tail, k - 1);
        assert(tail.subrange(0, k - 1) =~= ms.subrange(1, k));
        assert(tail.subrange(k - 1, tail.len() as int) =~= ms.subrange(k, ms.len() as int));
        let a = enc_arg(ms[0]);
        let x = enc_args(ms.subrange(1, k));
        let y = enc_args(ms.subrange(k, ms.len() as int));
        assert(enc_args(ms) == a + (x + y));
        assert(ms.subrange(0, k)[0] == ms[0]);
        assert(ms.subrange(0, k).subrange(1, k) =~= ms.subrange(1, k));
        assert(enc_args(ms.subrange(0, k)) == a + x);
        assert(a + (x + y) =~= (a + x) + y);
    }
}

/// With some arguments already decoded against the front of the schema, the
/// next argument of any matching list sits exactly at the cursor.
proof fn lemma_args_align_at(
    b: Seq<u8>,
    pos: int,
    cur: int,
    sofar: Seq<ArgModel>,
    ms: Seq<ArgModel>,
    tys: Seq<ArgumentDecodingInfo>,
)
    requires
        wf_args(ms),
        args_match(ms, tys),
        prefix_at(b, pos, enc_args(ms)),
        wf_args(sofar),
        args_match(sofar, tys.subrange(0, sofar.len() as int)),
        sofar.len() < tys.len(),
        0 <= pos <= cur <= b.len(),
        b.subrange(pos, cur) == enc_args(sofar),
    ensures
        ({
            let k = sofar.len() as int;
            &&& ms.len() == tys.len()
            &&& arg_ty(ms[k]) == tys[k]
            &&& wf_arg(ms[k])
            &&& prefix_at(b, cur, enc_arg(ms[k]))
        }),
{
    let k = sofar.len() as int;
    let nn = b.len() as int;
    let take = ms.subrange(0, k);
    let skip = ms.subrange(k, ms.len() as int);
    lemma_enc_args_split(ms, k);
    assert(enc_args(take).len() <= enc_args(ms).len());
    let r1 = b.subrange(cur, nn);
    let r2 = b.subrange(pos + enc_args(take).len(), nn);
    crate::wire::lemma_subrange_concat(b, pos, cur, nn);
    crate::wire::lemma_subrange_concat(b, pos, pos + enc_args(take).len(), nn);
    assert(b.subrange(pos, pos + enc_args(take).len()) =~= enc_args(take)) by {
        let full = b.subrange(pos, pos + enc_args(ms).len());
        assert(forall|i: int| 0 <= i < enc_args(take).len() ==> #[trigger] enc_args(take)[i]
            == enc_args(ms)[i]);
        assert(forall|i: int| 0 <= i < enc_args(take).len() ==> #[trigger] enc_args(ms)[i]
            == full[i]);
        assert(forall|i: int| 0 <= i < enc_args(take).len() ==> #[trigger] full[i] == b[pos + i]);
    }
    assert(enc_args(sofar) + r1 == enc_args(take) + r2);
    assert(args_match(take, tys.subrange(0, k))) by {
        assert(forall|i: int| 0 <= i < k ==> #[trigger] take[i] == ms[i]);
    }
    assert(wf_args(take)) by {
        assert(forall|i: int| 0 <= i < k ==> #[trigger] take[i] == ms[i]);
    }
    lemma_args_prefix(sofar, take, tys.subrange(0, k), r1, r2);
    assert(cur == pos + enc_args(take).len());
    assert(skip.len() > 0);
    assert(skip[0] == ms[k]);
    assert(enc_args(skip) == enc_arg(ms[k]) + enc_args(skip.subrange(1, skip.len() as int)));
    assert(pos + enc_args(ms).len() <= nn);
    assert(b.subrange(cur, cur + enc_arg(ms[k]).len() as int) =~= enc_arg(ms[k])) by {
        let full = b.subrange(pos, pos + enc_args(ms).len());
        let off = enc_args(take).len() as int;
        assert(forall|i: int| 0 <= i < enc_arg(ms[k]).len() ==> #[trigger] enc_arg(ms[k])[i]
            == enc_args(skip)[i]);
        assert(forall|i: int| 0 <= i < enc_arg(ms[k]).len() ==> #[trigger] enc_args(skip)[i]
            == enc_args(ms)[off + i]);
        assert(forall|i: int| 0 <= i < enc_arg(ms[k]).len() ==> #[trigger] enc_args(ms)[off + i]
            == full[off + i]);
        assert(forall|i: int| 0 <= i < enc_arg(ms[k]).len() ==> #[trigger] full[off + i] == b[cur
            + i]);
    }
}

/// The hypothesis refuted at every refusal site of the argument decoder.
spec fn some_args_at(
    b: Seq<u8>,
    pos: int,
    tys: Seq<ArgumentDecodingInfo>,
    ms: Seq<ArgModel>,
) -> bool {
    wf_args(ms) && args_match(ms, tys) && prefix_at(b, pos, enc_args(ms))
}

/// The scan state of the argument decoder.
spec fn args_scan_inv(
    b: Seq<u8>,
    pos: int,
    cur: int,
    sofar: Seq<ArgModel>,
    tys: Seq<ArgumentDecodingInfo>,
) -> bool {
    &&& 0 <= pos <= cur <= b.len()
    &&& wf_args(sofar)
    &&& args_match(sofar, tys.subrange(0, sofar.len() as int))
    &&& sofar.len() < tys.len()
    &&& b.subrange(pos, cur) == enc_args(sofar)
}

/// No matching argument list fits when a fixed-size argument runs out of
/// buffer.
#[verifier::rlimit(50)]
proof fn no_args_fixed(
    b: Seq<u8>,
    pos: int,
    cur: int,
    sofar: Seq<ArgModel>,
    tys: Seq<ArgumentDecodingInfo>,
    need: int,
)
    requires
        args_scan_inv(b, pos, cur, sofar, tys),
        forall|m: ArgModel| arg_ty(m) == tys[sofar.len() as int] ==> enc_arg(m).len() == need,
        b.len() - cur < need,
    ensures
        forall|ms: Seq<ArgModel>| #![trigger enc_args(ms)] !some_args_at(b, pos, tys, ms),
{
    assert forall|ms: Seq<ArgModel>| #![trigger enc_args(ms)] !some_args_at(b, pos, tys, ms) by {
        if some_args_at(b, pos, tys, ms) {
            lemma_args_align_at(b, pos, cur, sofar, ms, tys);
            assert(false);
        }
    }
}

/// No matching argument list fits when a short-string argument runs out of
/// buffer.
#[verifier::rlimit(50)]
proof fn no_args_sstr_read(
    b: Seq<u8>,
    pos: int,
    cur: int,
    sofar: Seq<ArgModel>,
    tys: Seq<ArgumentDecodingInfo>,
)
    requires
        args_scan_inv(b, pos, cur, sofar, tys),
        tys[sofar.len() as int] == ArgumentDecodingInfo::ShortString,
        cur == b.len() || cur + 1 + b[cur] > b.len(),
    ensures
        forall|ms: Seq<ArgModel>| #![trigger enc_args(ms)] !some_args_at(b, pos, tys, ms),
{
    assert forall|ms: Seq<ArgModel>| #![trigger enc_args(ms)] !some_args_at(b, pos, tys, ms) by {
        if some_args_at(b, pos, tys, ms) {
            lemma_args_align_at(b, pos, cur, sofar, ms, tys);
            let k = sofar.len() as int;
            let st = ms[k]->ShortString_0;
            assert(b.subrange(cur, cur + enc_arg(ms[k]).len() as int)[0] == st.len() as u8);
            assert(b[cur] == st.len() as u8);
            assert(cur + 1 + st.len() <= b.len());
            assert(false);
        }
    }
}

/// No matching argument list sits where a short-string argument's bytes are
/// not UTF-8.
#[verifier::rlimit(50)]
proof fn no_args_sstr_utf8(
    b: Seq<u8>,
    pos: int,
    cur: int,
    sofar: Seq<ArgModel>,
    tys: Seq<ArgumentDecodingInfo>,
    kb: Seq<u8>,
    kend: int,
)
    requires
        args_scan_inv(b, pos, cur, sofar, tys),
        tys[sofar.len() as int] == ArgumentDecodingInfo::ShortString,
        kb.len() <= 255,
        cur < kend <= b.len(),
        b.subrange(cur, kend) == enc_sstr(kb),
        !valid_utf8(kb),
    ensures
        forall|ms: Seq<ArgModel>| #![trigger enc_args(ms)] !some_args_at(b, pos, tys, ms),
{
    assert forall|ms: Seq<ArgModel>| #![trigger enc_args(ms)] !some_args_at(b, pos, tys, ms) by {
        if some_args_at(b, pos, tys, ms) {
            lemma_args_align_at(b, pos, cur, sofar, ms, tys);
            let k = sofar.len() as int;
            let st = ms[k]->ShortString_0;
            crate::wire::lemma_subrange_concat(b, cur, kend, b.len() as int);
            crate::wire::lemma_subrange_concat(b, cur, cur + enc_sstr(st).len(), b.len() as int);
            assert(enc_sstr(kb) + b.subrange(kend, b.len() as int) == enc_sstr(st) + b.subrange(
                cur + enc_sstr(st).len(),
                b.len() as int,
            ));
            crate::wire::lemma_sstr_prefix(
                kb,
                st,
                b.subrange(kend, b.len() as int),
                b.subrange(cur + enc_sstr(st).len(), b.len() as int),
            );
            assert(false);
        }
    }
}

/// No matching argument list fits when a long-string argument runs out of
/// buffer.
#[verifier::rlimit(50)]
proof fn no_args_lstr_read(
    b: Seq<u8>,
    pos: int,
    cur: int,
    sofar: Seq<ArgModel>,
    tys: Seq<ArgumentDecodingInfo>,
)
    requires
        args_scan_inv(b, pos, cur, sofar, tys),
        tys[sofar.len() as int] == ArgumentDecodingInfo::LongString,
        cur + 4 > b.len() || cur + 4 + be32_val(b.subrange(cur, cur + 4)) > b.len(),
    ensures
        forall|ms: Seq<ArgModel>| #![trigger enc_args(ms)] !some_args_at(b, pos, tys, ms),
{
    assert forall|ms: Seq<ArgModel>| #![trigger enc_args(ms)] !some_args_at(b, pos, tys, ms) by {
        if some_args_at(b, pos, tys, ms) {
            lemma_args_align_at(b, pos, cur, sofar, ms, tys);
            let k = sofar.len() as int;
            let st = ms[k]->LongString_0;
            let ch = b.subrange(cur, cur + enc_arg(ms[k]).len() as int);
            assert(b.subrange(cur, cur + 4) =~= be32(st.len() as u32)) by {
                assert(forall|i: int| 0 <= i < 4 ==> #[trigger] ch[i] == enc_lstr(st)[i]);
                assert(forall|i: int| 0 <= i < 4 ==> #[trigger] ch[i] == b[cur + i]);
            }
            crate::wire::lemma_be32_val(st.len() as u32);
            assert(cur + 4 + st.len() <= b.len());
            assert(false);
        }
    }
}

/// No matching argument list sits where a long-string argument's bytes are
/// not UTF-8.
#[verifier::rlimit(50)]
proof fn no_args_lstr_utf8(
    b: Seq<u8>,
    pos: int,
    cur: int,
    sofar: Seq<ArgModel>,
    tys: Seq<ArgumentDecodingInfo>,
    kb: Seq<u8>,
    kend: int,
)
    requires
        args_scan_inv(b, pos, cur, sofar, tys),
        tys[sofar.len() as int] == ArgumentDecodingInfo::LongString,
        kb.len() <= 0xFFFFFFFF,
        cur < kend <= b.len(),
        b.subrange(cur, kend) == enc_lstr(kb),
        !valid_utf8(kb),
    ensures
        forall|ms: Seq<ArgModel>| #![trigger enc_args(ms)] !some_args_at(b, pos, tys, ms),
{
    assert forall|ms: Seq<ArgModel>| #![trigger enc_args(ms)] !some_args_at(b, pos, tys, ms) by {
        if some_args_at(b, pos, tys, ms) {
            lemma_args_align_at(b, pos, cur, sofar, ms, tys);
            let k = sofar.len() as int;
            let st = ms[k]->LongString_0;
            crate::wire::lemma_subrange_concat(b, cur, kend, b.len() as int);
            crate::wire::lemma_subrange_concat(b, cur, cur + enc_lstr(st).len(), b.len() as int);
            assert(enc_lstr(kb) + b.subrange(kend, b.len() as int) == enc_lstr(st) + b.subrange(
                cur + enc_lstr(st).len(),
                b.len() as int,
            ));
            crate::wire::lemma_lstr_prefix(
                kb,
                st,
                b.subrange(kend, b.len() as int),
                b.subrange(cur + enc_lstr(st).len(), b.len() as int),
            );
            assert(false);
        }
    }
}

/// No matching argument list sits where no well-formed table sits at a
/// table-typed argument.
#[verifier::rlimit(50)]
proof fn no_args_table(
    b: Seq<u8>,
    pos: int,
    cur: int,
    sofar: Seq<ArgModel>,
    tys: Seq<ArgumentDecodingInfo>,
)
    requires
        args_scan_inv(b, pos, cur, sofar, tys),
        tys[sofar.len() as int] == ArgumentDecodingInfo::FieldTable,
        forall|t: TableModel| #![trigger enc_table(t)]
            !(wf_table(t) && prefix_at(b, cur, enc_table(t))),
    ensures
        forall|ms: Seq<ArgModel>| #![trigger enc_args(ms)] !some_args_at(b, pos, tys, ms),
{
    assert forall|ms: Seq<ArgModel>| #![trigger enc_args(ms)] !some_args_at(b, pos, tys, ms) by {
        if some_args_at(b, pos, tys, ms) {
            lemma_args_align_at(b, pos, cur, sofar, ms, tys);
            let k = sofar.len() as int;
            let t = ms[k]->FieldTable_0;
            assert(prefix_at(b, cur, enc_table(t)));
            assert(false);
        }
    }
}

/// Append the encoding of an argument list.  Succeeds exactly when every
/// argument can stand on the wire; on failure the destination is unchanged.
pub fn encode_args(args: &Arguments, dst: &mut Vec<u8>) -> (r: Result<(), EncodeError>)
    ensures
        r matches Ok(()) ==> wf_args(args_model(args.0@)) && final(dst)@ == old(dst)@ + enc_args(
            args_model(args.0@),
        ),
        r is Err ==> !wf_args(args_model(args.0@)) && final(dst)@ == old(dst)@,
{
    let ghost ms = args_model(args.0@);
    let mut out: Vec<u8> = Vec::new();
    let n = args.0.len();
    let mut i: usize = 0;
    while i < n
        invariant
            i <= n,
            n == args.0@.len(),
            ms == args_model(args.0@),
            ms.len() == n,
            forall|j: int| 0 <= j < n ==> #[trigger] ms[j] == arg_model(args.0@[j]),
            out@ == enc_args(ms.subrange(0, i as int)),
            wf_args(ms.subrange(0, i as int)),
        decreases n - i,
    {
        let ghost pre = ms.subrange(0, i as int);
        match &args.0[i] {
            Argument::Octet(x) => {
                put_u8(&mut out, *x);
            },
            Argument::Short(x) => {
                put_u16(&mut out, *x);
            },
            Argument::Long(x) => {
                put_u32(&mut out, *x);
            },
            Argument::LongLong(x) => {
                put_u64(&mut out, *x);
            },
            Argument::Bits(x) => {
                put_u8(&mut out, *x);
            },
            Argument::ShortString(s) => {
                if s.len() > 255 {
                    proof {
                        assert(!wf_arg(ms[i as int]));
                    }
                    return Err(EncodeError::TooLong);
                }
                proof {
                    use_type_invariant(s);
                }
                crate::wire::put_sstr_bytes(&mut out, s.as_bytes());
            },
            Argument::LongString(s) => {
                if s.len() as u64 > 0xFFFFFFFF {
                    proof {
                        assert(!wf_arg(ms[i as int]));
                    }
                    return Err(EncodeError::TooLong);
                }
                proof {
                    use_type_invariant(s);
                }
                crate::wire::put_lstr_bytes(&mut out, s.as_bytes());
            },
            Argument::Timestamp(x) => {
                put_u64(&mut out, *x);
            },
            Argument::FieldTable(t) => {
                match encode_field_table(t, &mut out) {
                    Err(e) => {
                        proof {
                            assert(!wf_arg(ms[i as int]));
                        }
                        return Err(e);
                    },
                    Ok(()) => {},
                }
            },
        }
        proof {
            let m = ms[i as int];
            assert(ms.subrange(0, i + 1 as int) =~= pre.push(m));
            lemma_enc_args_snoc(pre, m);
            assert(out@ == enc_args(ms.subrange(0, i + 1 as int)));
            assert(wf_arg(ms[i as int]));
            assert(wf_args(ms.subrange(0, i + 1 as int))) by {
                assert(forall|j: int| 0 <= j < i + 1 ==> #[trigger] ms.subrange(0, i + 1 as int)[j]
                    == ms[j]);
                assert(forall|j: int| 0 <= j < i ==> #[trigger] pre[j] == ms[j]);
            }
        }
        i = i + 1;
    }
    proof {
        assert(ms.subrange(0, n as int) =~= ms);
    }
    crate::wire::push_all(dst, &out);
    Ok(())
}

/// Decode an argument list against its schema.
///
/// On success the consumed bytes are exactly the encoding of the returned
/// arguments, and decoding succeeds whenever an encoding of some matching,
/// well-formed argument list sits at `pos`.
pub fn decode_args(tys: &Vec<ArgumentDecodingInfo>, b: &Vec<u8>, pos: usize) -> (r: Result<
    (Arguments, usize),
    DecodeError,
>)
    requires
        pos <= b@.len(),
    ensures
        match r {
            Ok(p) => pos <= p.1 <= b@.len() && args_match(args_model(p.0.0@), tys@) && wf_args(
                args_model(p.0.0@),
            ) && b@.subrange(pos as int, p.1 as int) == enc_args(args_model(p.0.0@)),
            Err(e) => field_error(e),
        },
        forall|ms: Seq<ArgModel>| #![trigger enc_args(ms)]
            wf_args(ms) && args_match(ms, tys@) && prefix_at(b@, pos as int, enc_args(ms)) ==> r
                is Ok,
        r matches Err(e) ==> (e matches DecodeError::UnsupportedFieldType(t) ==> t == 0x78),
        r matches Err(e) ==> (e matches DecodeError::InvalidBooleanByte(x) ==> x > 1),
{
    let n = b.len();
    let nt = tys.len();
    let mut out: Vec<Argument> = Vec::new();
    let mut cur: usize = pos;
    let mut i: usize = 0;
    while i < nt
        invariant
            i <= nt,
            nt == tys@.len(),
            n == b@.len(),
            pos <= cur <= n,
            out@.len() == i,
            args_match(args_model(out@), tys@.subrange(0, i as int)),
            wf_args(args_model(out@)),
            b@.subrange(pos as int, cur as int) == enc_args(args_model(out@)),
        decreases nt - i,
    {
        let ghost sofar = args_model(out@);
        let ghost cur0 = cur;
        proof {
            assert(args_scan_inv(b@, pos as int, cur as int, sofar, tys@));
        }
        let arg: Argument = match tys[i] {
            ArgumentDecodingInfo::Octet => {
                if cur >= n {
                    proof {
                        assert(forall|m: ArgModel| arg_ty(m) == tys@[i as int] ==> enc_arg(
                            m,
                        ).len() == 1);
                        no_args_fixed(b@, pos as int, cur as int, sofar, tys@, 1);
                    }
                    return Err(DecodeError::PayloadTruncated);
                }
                let x = b[cur];
                proof {
                    assert(b@.subrange(cur as int, cur + 1) =~= seq![x]);
                }
                cur = cur + 1;
                Argument::Octet(x)
            },
            ArgumentDecodingInfo::Bits => {
                if cur >= n {
                    proof {
                        assert(forall|m: ArgModel| arg_ty(m) == tys@[i as int] ==> enc_arg(
                            m,
                        ).len() == 1);
                        no_args_fixed(b@, pos as int, cur as int, sofar, tys@, 1);
                    }
                    return Err(DecodeError::PayloadTruncated);
                }
                let x = b[cur];
                proof {
                    assert(b@.subrange(cur as int, cur + 1) =~= seq![x]);
                }
                cur = cur + 1;
                Argument::Bits(x)
            },
            ArgumentDecodingInfo::Short => {
                if n - cur < 2 {
                    proof {
                        assert(forall|m: ArgModel| arg_ty(m) == tys@[i as int] ==> enc_arg(
                            m,
                        ).len() == 2);
                        no_args_fixed(b@, pos as int, cur as int, sofar, tys@, 2);
                    }
                    return Err(DecodeError::PayloadTruncated);
                }
                let x = crate::wire::get_u16(b, cur);
                cur = cur + 2;
                Argument::Short(x)
            },
            ArgumentDecodingInfo::Long => {
                if n - cur < 4 {
                    proof {
                        assert(forall|m: ArgModel| arg_ty(m) == tys@[i as int] ==> enc_arg(
                            m,
                        ).len() == 4);
                        no_args_fixed(b@, pos as int, cur as int, sofar, tys@, 4);
                    }
                    return Err(DecodeError::PayloadTruncated);
                }
                let x = crate::wire::get_u32(b, cur);
                cur = cur + 4;
                Argument::Long(x)
            },
            ArgumentDecodingInfo::LongLong => {
                if n - cur < 8 {
                    proof {
                        assert(forall|m: ArgModel| arg_ty(m) == tys@[i as int] ==> enc_arg(
                            m,
                        ).len() == 8);
                        no_args_fixed(b@, pos as int, cur as int, sofar, tys@, 8);
                    }
                    return Err(DecodeError::PayloadTruncated);
                }
                let x = crate::wire::get_u64(b, cur);
                cur = cur + 8;
                Argument::LongLong(x)
            },
            ArgumentDecodingInfo::Timestamp => {
                if n - cur < 8 {
                    proof {
                        assert(forall|m: ArgModel| arg_ty(m) == tys@[i as int] ==> enc_arg(
                            m,
                        ).len() == 8);
                        no_args_fixed(b@, pos as int, cur as int, sofar, tys@, 8);
                    }
                    return Err(DecodeError::PayloadTruncated);
                }
                let x = crate::wire::get_u64(b, cur);
                cur = cur + 8;
                Argument::Timestamp(x)
            },
            ArgumentDecodingInfo::ShortString => {
                let (kb, kend) = match crate::wire::read_sstr_bytes(b, cur) {
                    Err(_) => {
                        proof {
                            no_args_sstr_read(b@, pos as int, cur as int, sofar, tys@);
                        }
                        return Err(DecodeError::PayloadTruncated);
                    },
                    Ok(p) => p,
                };
                let astr = match AmqpString::from_bytes(kb) {
                    Err(e) => {
                        proof {
                            no_args_sstr_utf8(
                                b@,
                                pos as int,
                                cur as int,
                                sofar,
                                tys@,
                                kb@,
                                kend as int,
                            );
                        }
                        return Err(e);
                    },
                    Ok(a) => a,
                };
                cur = kend;
                Argument::ShortString(astr)
            },
            ArgumentDecodingInfo::LongString => {
                let (kb, kend) = match crate::wire::read_lstr_bytes(b, cur) {
                    Err(_) => {
                        proof {
                            no_args_lstr_read(b@, pos as int, cur as int, sofar, tys@);
                        }
                        return Err(DecodeError::PayloadTruncated);
                    },
                    Ok(p) => p,
                };
                let astr = match AmqpString::from_bytes(kb) {
                    Err(e) => {
                        proof {
                            no_args_lstr_utf8(
                                b@,
                                pos as int,
                                cur as int,
                                sofar,
                                tys@,
                                kb@,
                                kend as int,
                            );
                        }
                        return Err(e);
                    },
                    Ok(a) => a,
                };
                cur = kend;
                Argument::LongString(astr)
            },
            ArgumentDecodingInfo::FieldTable => {
                let (ft, tend) = match decode_field_table(b, cur) {
                    Err(e) => {
                        proof {
                            no_args_table(b@, pos as int, cur as int, sofar, tys@);
                        }
                        return Err(e);
                    },
                    Ok(p) => p,
                };
                cur = tend;
                Argument::FieldTable(ft)
            },
        };
        proof {
            let m = arg_model(arg);
            assert(args_model(out@.push(arg)) =~= sofar.push(m)) by {
                assert(forall|j: int| 0 <= j < out@.len() ==> #[trigger] out@.push(arg)[j]
                    == out@[j]);
                assert(out@.push(arg)[out@.len() as int] == arg);
            }
            lemma_enc_args_snoc(sofar, m);
            assert(b@.subrange(cur0 as int, cur as int) == enc_arg(m));
            crate::wire::lemma_subrange_concat(b@, pos as int, cur0 as int, cur as int);
            assert(b@.subrange(pos as int, cur as int) == enc_args(sofar.push(m)));
            assert(args_match(sofar.push(m), tys@.subrange(0, i + 1 as int))) by {
                assert(forall|j: int| 0 <= j < i ==> #[trigger] sofar.push(m)[j] == sofar[j]);
                assert(sofar.push(m)[i as int] == m);
            }
            assert(wf_args(sofar.push(m))) by {
                assert(forall|j: int| 0 <= j < i ==> #[trigger] sofar.push(m)[j] == sofar[j]);
            }
        }
        out.push(arg);
        i = i + 1;
    }
    proof {
        assert(tys@.subrange(0, nt as int) =~= tys@);
    }
    Ok((Arguments(out), cur))
}

// ---------------------------------------------------------------------------
// Taking arguments back out of a list (from the end, so nothing is cloned).
// ---------------------------------------------------------------------------

pub fn take_octet(a: &mut Vec<Argument>) -> (r: Option<u8>)
    ensures
        match r {
            Some(x) => old(a)@.len() > 0 && final(a)@ == old(a)@.drop_last() && arg_model(
                old(a)@.last(),
            ) == ArgModel::Octet(x),
            None => final(a)@ == old(a)@ && (old(a)@.len() == 0 || !(arg_model(old(a)@.last())
                is Octet)),
        },
{
    match a.pop() {
        Some(Argument::Octet(x)) => Some(x),
        Some(other) => {
            a.push(other);
            proof {
                assert(a@ =~= old(a)@);
            }
            None
        },
        None => None,
    }
}

pub fn take_short(a: &mut Vec<Argument>) -> (r: Option<u16>)
    ensures
        match r {
            Some(x) => old(a)@.len() > 0 && final(a)@ == old(a)@.drop_last() && arg_model(
                old(a)@.last(),
            ) == ArgModel::Short(x),
            None => final(a)@ == old(a)@ && (old(a)@.len() == 0 || !(arg_model(old(a)@.last())
                is Short)),
        },
{
    match a.pop() {
        Some(Argument::Short(x)) => Some(x),
        Some(other) => {
            a.push(other);
            proof {
                assert(a@ =~= old(a)@);
            }
            None
        },
        None => None,
    }
}

pub fn take_long(a: &mut Vec<Argument>) -> (r: Option<u32>)
    ensures
        match r {
            Some(x) => old(a)@.len() > 0 && final(a)@ == old(a)@.drop_last() && arg_model(
                old(a)@.last(),
            ) == ArgModel::Long(x),
            None => final(a)@ == old(a)@ && (old(a)@.len() == 0 || !(arg_model(old(a)@.last())
                is Long)),
        },
{
    match a.pop() {
        Some(Argument::Long(x)) => Some(x),
        Some(other) => {
            a.push(other);
            proof {
                assert(a@ =~= old(a)@);
            }
            None
        },
        None => None,
    }
}

pub fn take_longlong(a: &mut Vec<Argument>) -> (r: Option<u64>)
    ensures
        match r {
            Some(x) => old(a)@.len() > 0 && final(a)@ == old(a)@.drop_last() && arg_model(
                old(a)@.last(),
            ) == ArgModel::LongLong(x),
            None => final(a)@ == old(a)@ && (old(a)@.len() == 0 || !(arg_model(old(a)@.last())
                is LongLong)),
        },
{
    match a.pop() {
        Some(Argument::LongLong(x)) => Some(x),
        Some(other) => {
            a.push(other);
            proof {
                assert(a@ =~= old(a)@);
            }
            None
        },
        None => None,
    }
}

pub fn take_bits(a: &mut Vec<Argument>) -> (r: Option<u8>)
    ensures
        match r {
            Some(x) => old(a)@.len() > 0 && final(a)@ == old(a)@.drop_last() && arg_model(
                old(a)@.last(),
            ) == ArgModel::Bits(x),
            None => final(a)@ == old(a)@ && (old(a)@.len() == 0 || !(arg_model(old(a)@.last())
                is Bits)),
        },
{
    match a.pop() {
        Some(Argument::Bits(x)) => Some(x),
        Some(other) => {
            a.push(other);
            proof {
                assert(a@ =~= old(a)@);
            }
            None
        },
        None => None,
    }
}

pub fn take_short_string(a: &mut Vec<Argument>) -> (r: Option<AmqpString>)
    ensures
        match r {
            Some(s) => old(a)@.len() > 0 && final(a)@ == old(a)@.drop_last() && arg_model(
                old(a)@.last(),
            ) == ArgModel::ShortString(s@),
            None => final(a)@ == old(a)@ && (old(a)@.len() == 0 || !(arg_model(old(a)@.last())
                is ShortString)),
        },
{
    match a.pop() {
        Some(Argument::ShortString(s)) => Some(s),
        Some(other) => {
            a.push(other);
            proof {
                assert(a@ =~= old(a)@);
            }
            None
        },
        None => None,
    }
}

pub fn take_long_string(a: &mut Vec<Argument>) -> (r: Option<AmqpString>)
    ensures
        match r {
            Some(s) => old(a)@.len() > 0 && final(a)@ == old(a)@.drop_last() && arg_model(
                old(a)@.last(),
            ) == ArgModel::LongString(s@),
            None => final(a)@ == old(a)@ && (old(a)@.len() == 0 || !(arg_model(old(a)@.last())
                is LongString)),
        },
{
    match a.pop() {
        Some(Argument::LongString(s)) => Some(s),
        Some(other) => {
            a.push(other);
            proof {
                assert(a@ =~= old(a)@);
            }
            None
        },
        None => None,
    }
}

pub fn take_timestamp(a: &mut Vec<Argument>) -> (r: Option<u64>)
    ensures
        match r {
            Some(x) => old(a)@.len() > 0 && final(a)@ == old(a)@.drop_last() && arg_model(
                old(a)@.last(),
            ) == ArgModel::Timestamp(x),
            None => final(a)@ == old(a)@ && (old(a)@.len() == 0 || !(arg_model(old(a)@.last())
                is Timestamp)),
        },
{
    match a.pop() {
        Some(Argument::Timestamp(x)) => Some(x),
        Some(other) => {
            a.push(other);
            proof {
                assert(a@ =~= old(a)@);
            }
            None
        },
        None => None,
    }
}

pub fn take_table(a: &mut Vec<Argument>) -> (r: Option<FieldTable>)
    ensures
        match r {
            Some(t) => old(a)@.len() > 0 && final(a)@ == old(a)@.drop_last() && arg_model(
                old(a)@.last(),
            ) == ArgModel::FieldTable(table_model(t.0@)),
            None => final(a)@ == old(a)@ && (old(a)@.len() == 0 || !(arg_model(old(a)@.last())
                is FieldTable)),
        },
{
    match a.pop() {
        Some(Argument::FieldTable(t)) => Some(t),
        Some(other) => {
            a.push(other);
            proof {
                assert(a@ =~= old(a)@);
            }
            None
        },
        None => None,
    }
}

// ---------------------------------------------------------------------------
// Bit runs: consecutive bit fields of a method share one octet, packed
// least-significant bit first.
// ---------------------------------------------------------------------------

pub open spec fn bit_u8(b: bool) -> u8 {
    if b {
        1
    } else {
        0
    }
}

/// One octet holding up to five bit fields, LSB first.
pub open spec fn pack_bits5(b1: bool, b2: bool, b3: bool, b4: bool, b5: bool) -> u8 {
    (bit_u8(b1) + 2 * bit_u8(b2) + 4 * bit_u8(b3) + 8 * bit_u8(b4) + 16 * bit_u8(b5)) as u8
}

pub open spec fn pack_bits1(b1: bool) -> u8 {
    pack_bits5(b1, false, false, false, false)
}

pub open spec fn pack_bits2(b1: bool, b2: bool) -> u8 {
    pack_bits5(b1, b2, false, false, false)
}

pub open spec fn pack_bits3(b1: bool, b2: bool, b3: bool) -> u8 {
    pack_bits5(b1, b2, b3, false, false)
}

pub open spec fn pack_bits4(b1: bool, b2: bool, b3: bool, b4: bool) -> u8 {
    pack_bits5(b1, b2, b3, b4, false)
}

pub fn pack5(b1: bool, b2: bool, b3: bool, b4: bool, b5: bool) -> (r: u8)
    ensures
        r == pack_bits5(b1, b2, b3, b4, b5),
{
    let x1: u8 = if b1 { 1 } else { 0 };
    let x2: u8 = if b2 { 2 } else { 0 };
    let x3: u8 = if b3 { 4 } else { 0 };
    let x4: u8 = if b4 { 8 } else { 0 };
    let x5: u8 = if b5 { 16 } else { 0 };
    x1 + x2 + x3 + x4 + x5
}

pub fn pack1(b1: bool) -> (r: u8)
    ensures
        r == pack_bits1(b1),
{
    pack5(b1, false, false, false, false)
}

pub fn pack2(b1: bool, b2: bool) -> (r: u8)
    ensures
        r == pack_bits2(b1, b2),
{
    pack5(b1, b2, false, false, false)
}

pub fn pack3(b1: bool, b2: bool, b3: bool) -> (r: u8)
    ensures
        r == pack_bits3(b1, b2, b3),
{
    pack5(b1, b2, b3, false, false)
}

pub fn pack4(b1: bool, b2: bool, b3: bool, b4: bool) -> (r: u8)
    ensures
        r == pack_bits4(b1, b2, b3, b4),
{
    pack5(b1, b2, b3, b4, false)
}

/// The bit field at LSB-first position `k` of a packed octet.
pub open spec fn bit_at(x: u8, k: int) -> bool
    recommends
        0 <= k < 8,
{
    if k == 0 {
        x % 2 == 1
    } else if k == 1 {
        (x / 2) % 2 == 1
    } else if k == 2 {
        (x / 4) % 2 == 1
    } else if k == 3 {
        (x / 8) % 2 == 1
    } else if k == 4 {
        (x / 16) % 2 == 1
    } else if k == 5 {
        (x / 32) % 2 == 1
    } else if k == 6 {
        (x / 64) % 2 == 1
    } else {
        (x / 128) % 2 == 1
    }
}

pub fn unpack_bit(x: u8, k: u8) -> (r: bool)
    requires
        k < 8,
    ensures
        r == bit_at(x, k as int),
{
    if k == 0 {
        x % 2 == 1
    } else if k == 1 {
        (x / 2) % 2 == 1
    } else if k == 2 {
        (x / 4) % 2 == 1
    } else if k == 3 {
        (x / 8) % 2 == 1
    } else if k == 4 {
        (x / 16) % 2 == 1
    } else if k == 5 {
        (x / 32) % 2 == 1
    } else if k == 6 {
        (x / 64) % 2 == 1
    } else {
        (x / 128) % 2 == 1
    }
}

/// A run of bit fields is packed into one octet LSB first, and each bit is
/// recovered from its position, whatever its neighbours hold.
pub proof fn lemma_bit_packing(b1: bool, b2: bool, b3: bool, b4: bool, b5: bool)
    ensures
        pack_bits5(b1, b2, b3, b4, b5) < 32,
        bit_at(pack_bits5(b1, b2, b3, b4, b5), 0) == b1,
        bit_at(pack_bits5(b1, b2, b3, b4, b5), 1) == b2,
        bit_at(pack_bits5(b1, b2, b3, b4, b5), 2) == b3,
        bit_at(pack_bits5(b1, b2, b3, b4, b5), 3) == b4,
        bit_at(pack_bits5(b1, b2, b3, b4, b5), 4) == b5,
{
}

} // verus!
