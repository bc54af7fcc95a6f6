//! Method payloads: dispatch on (class id, method id) and the closed
//! per-method argument schemas.

pub mod connection;
pub mod channel;
pub mod exchange;
pub mod queue;
pub mod basic;
pub mod tx;

pub use self::connection::ConnectionClass;
pub use self::channel::ChannelClass;
pub use self::exchange::ExchangeClass;
pub use self::queue::QueueClass;
pub use self::basic::BasicClass;
pub use self::tx::TxClass;

pub mod encoder;
pub mod decoder;

use vstd::prelude::*;

use crate::methods::args::{ArgModel, ArgumentDecodingInfo, args_match, wf_args, enc_args};
use crate::wire::be16;

verus! {

/// A method payload: one method of one class.
#[derive(Debug, PartialEq)]
pub enum MethodPayload {
    Connection(ConnectionClass),
    Channel(ChannelClass),
    Exchange(ExchangeClass),
    Queue(QueueClass),
    Basic(BasicClass),
    Tx(TxClass),
}

/// The class id of a method payload.
pub open spec fn cid_of(p: MethodPayload) -> u16 {
    match p {
        MethodPayload::Connection(_) => 10,
        MethodPayload::Channel(_) => 20,
        MethodPayload::Exchange(_) => 40,
        MethodPayload::Queue(_) => 50,
        MethodPayload::Basic(_) => 60,
        MethodPayload::Tx(_) => 90,
    }
}

/// The method id of a method payload.
pub open spec fn mid_of(p: MethodPayload) -> u16 {
    match p {
        MethodPayload::Connection(c) => connection::connection_mid(c),
        MethodPayload::Channel(c) => channel::channel_mid(c),
        MethodPayload::Exchange(c) => exchange::exchange_mid(c),
        MethodPayload::Queue(c) => queue::queue_mid(c),
        MethodPayload::Basic(c) => basic::basic_mid(c),
        MethodPayload::Tx(c) => tx::tx_mid(c),
    }
}

/// The argument list of a method payload.
pub open spec fn margs_of(p: MethodPayload) -> Seq<ArgModel> {
    match p {
        MethodPayload::Connection(c) => connection::connection_margs(c),
        MethodPayload::Channel(c) => channel::channel_margs(c),
        MethodPayload::Exchange(c) => exchange::exchange_margs(c),
        MethodPayload::Queue(c) => queue::queue_margs(c),
        MethodPayload::Basic(c) => basic::basic_margs(c),
        MethodPayload::Tx(c) => tx::tx_margs(c),
    }
}

/// The abstract model of a method payload: class id, method id, arguments.
pub open spec fn method_model(p: MethodPayload) -> (u16, u16, Seq<ArgModel>) {
    (cid_of(p), mid_of(p), margs_of(p))
}

/// A method payload that can stand on the wire.
pub open spec fn wf_method(p: MethodPayload) -> bool {
    wf_args(margs_of(p))
}

/// The encoding of a method payload: class id, method id, then the
/// arguments per the schema.
pub open spec fn enc_method(p: MethodPayload) -> Seq<u8> {
    be16(cid_of(p)) + be16(mid_of(p)) + enc_args(margs_of(p))
}

/// The argument schema of each known (class id, method id) pair.
pub open spec fn schema(cid: u16, mid: u16) -> Option<Seq<ArgumentDecodingInfo>> {
    if cid == 10 {
        if mid == 10 {
            Some(seq![ArgumentDecodingInfo::Octet, ArgumentDecodingInfo::Octet, ArgumentDecodingInfo::FieldTable, ArgumentDecodingInfo::LongString, ArgumentDecodingInfo::LongString])
        } else if mid == 11 {
            Some(seq![ArgumentDecodingInfo::FieldTable, ArgumentDecodingInfo::ShortString, ArgumentDecodingInfo::LongString, ArgumentDecodingInfo::ShortString])
        } else if mid == 20 {
            Some(seq![ArgumentDecodingInfo::LongString])
        } else if mid == 21 {
            Some(seq![ArgumentDecodingInfo::LongString])
        } else if mid == 30 {
            Some(seq![ArgumentDecodingInfo::Short, ArgumentDecodingInfo::Long, ArgumentDecodingInfo::Short])
        } else if mid == 31 {
            Some(seq![ArgumentDecodingInfo::Short, ArgumentDecodingInfo::Long, ArgumentDecodingInfo::Short])
        } else if mid == 40 {
            Some(seq![ArgumentDecodingInfo::ShortString, ArgumentDecodingInfo::ShortString, ArgumentDecodingInfo::Bits])
        } else if mid == 41 {
            Some(seq![ArgumentDecodingInfo::ShortString])
        } else if mid == 50 {
            Some(seq![ArgumentDecodingInfo::Short, ArgumentDecodingInfo::ShortString, ArgumentDecodingInfo::Short, ArgumentDecodingInfo::Short])
        } else if mid == 51 {
            Some(Seq::empty())
        } else if mid == 60 {
            Some(seq![ArgumentDecodingInfo::ShortString])
        } else if mid == 61 {
            Some(Seq::empty())
        } else {
            None
        }
    } else if cid == 20 {
        if mid == 10 {
            Some(seq![ArgumentDecodingInfo::ShortString])
        } else if mid == 11 {
            Some(seq![ArgumentDecodingInfo::LongString])
        } else if mid == 20 {
            Some(seq![ArgumentDecodingInfo::Bits])
        } else if mid == 21 {
            Some(seq![ArgumentDecodingInfo::Bits])
        } else if mid == 40 {
            Some(seq![ArgumentDecodingInfo::Short, ArgumentDecodingInfo::ShortString, ArgumentDecodingInfo::Short, ArgumentDecodingInfo::Short])
        } else if mid == 41 {
            Some(Seq::empty())
        } else {
            None
        }
    } else if cid == 40 {
        if mid == 10 {
            Some(seq![ArgumentDecodingInfo::Short, ArgumentDecodingInfo::ShortString, ArgumentDecodingInfo::ShortString, ArgumentDecodingInfo::Bits, ArgumentDecodingInfo::FieldTable])
        } else if mid == 11 {
            Some(Seq::empty())
        } else if mid == 20 {
            Some(seq![ArgumentDecodingInfo::Short, ArgumentDecodingInfo::ShortString, ArgumentDecodingInfo::Bits])
        } else if mid == 21 {
            Some(Seq::empty())
        } else if mid == 30 {
            Some(seq![ArgumentDecodingInfo::Short, ArgumentDecodingInfo::ShortString, ArgumentDecodingInfo::ShortString, ArgumentDecodingInfo::ShortString, ArgumentDecodingInfo::Bits, ArgumentDecodingInfo::FieldTable])
        } else if mid == 31 {
            Some(Seq::empty())
        } else if mid == 40 {
            Some(seq![ArgumentDecodingInfo::Short, ArgumentDecodingInfo::ShortString, ArgumentDecodingInfo::ShortString, ArgumentDecodingInfo::ShortString, ArgumentDecodingInfo::Bits, ArgumentDecodingInfo::FieldTable])
        } else if mid == 51 {
            Some(Seq::empty())
        } else {
            None
        }
    } else if cid == 50 {
        if mid == 10 {
            Some(seq![ArgumentDecodingInfo::Short, ArgumentDecodingInfo::ShortString, ArgumentDecodingInfo::Bits, ArgumentDecodingInfo::FieldTable])
        } else if mid == 11 {
            Some(seq![ArgumentDecodingInfo::ShortString, ArgumentDecodingInfo::Long, ArgumentDecodingInfo::Long])
        } else if mid == 20 {
            Some(seq![ArgumentDecodingInfo::Short, ArgumentDecodingInfo::ShortString, ArgumentDecodingInfo::ShortString, ArgumentDecodingInfo::ShortString, ArgumentDecodingInfo::Bits, ArgumentDecodingInfo::FieldTable])
        } else if mid == 21 {
            Some(Seq::empty())
        } else if mid == 30 {
            Some(seq![ArgumentDecodingInfo::Short, ArgumentDecodingInfo::ShortString, ArgumentDecodingInfo::Bits])
        } else if mid == 31 {
            Some(seq![ArgumentDecodingInfo::Long])
        } else if mid == 40 {
            Some(seq![ArgumentDecodingInfo::Short, ArgumentDecodingInfo::ShortString, ArgumentDecodingInfo::Bits])
        } else if mid == 41 {
            Some(seq![ArgumentDecodingInfo::Long])
        } else if mid == 50 {
            Some(seq![ArgumentDecodingInfo::Short, ArgumentDecodingInfo::ShortString, ArgumentDecodingInfo::ShortString, ArgumentDecodingInfo::ShortString, ArgumentDecodingInfo::FieldTable])
        } else if mid == 51 {
            Some(Seq::empty())
        } else {
            None
        }
    } else if cid == 60 {
        if mid == 10 {
            Some(seq![ArgumentDecodingInfo::Long, ArgumentDecodingInfo::Short, ArgumentDecodingInfo::Bits])
        } else if mid == 11 {
            Some(Seq::empty())
        } else if mid == 20 {
            Some(seq![ArgumentDecodingInfo::Short, ArgumentDecodingInfo::ShortString, ArgumentDecodingInfo::ShortString, ArgumentDecodingInfo::Bits, ArgumentDecodingInfo::FieldTable])
        } else if mid == 21 {
            Some(seq![ArgumentDecodingInfo::ShortString])
        } else if mid == 30 {
            Some(seq![ArgumentDecodingInfo::ShortString, ArgumentDecodingInfo::Bits])
        } else if mid == 31 {
            Some(seq![ArgumentDecodingInfo::ShortString])
        } else if mid == 40 {
            Some(seq![ArgumentDecodingInfo::Short, ArgumentDecodingInfo::ShortString, ArgumentDecodingInfo::ShortString, ArgumentDecodingInfo::Bits])
        } else if mid == 50 {
            Some(seq![ArgumentDecodingInfo::Short, ArgumentDecodingInfo::ShortString, ArgumentDecodingInfo::ShortString, ArgumentDecodingInfo::ShortString])
        } else if mid == 60 {
            Some(seq![ArgumentDecodingInfo::ShortString, ArgumentDecodingInfo::LongLong, ArgumentDecodingInfo::Bits, ArgumentDecodingInfo::ShortString, ArgumentDecodingInfo::ShortString])
        } else if mid == 70 {
            Some(seq![ArgumentDecodingInfo::Short, ArgumentDecodingInfo::ShortString, ArgumentDecodingInfo::Bits])
        } else if mid == 71 {
            Some(seq![ArgumentDecodingInfo::LongLong, ArgumentDecodingInfo::Bits, ArgumentDecodingInfo::ShortString, ArgumentDecodingInfo::ShortString, ArgumentDecodingInfo::Long])
        } else if mid == 72 {
            Some(seq![ArgumentDecodingInfo::ShortString])
        } else if mid == 80 {
            Some(seq![ArgumentDecodingInfo::LongLong, ArgumentDecodingInfo::Bits])
        } else if mid == 90 {
            Some(seq![ArgumentDecodingInfo::LongLong, ArgumentDecodingInfo::Bits])
        } else if mid == 100 {
            Some(seq![ArgumentDecodingInfo::Bits])
        } else if mid == 110 {
            Some(seq![ArgumentDecodingInfo::Bits])
        } else if mid == 111 {
            Some(Seq::empty())
        } else if mid == 120 {
            Some(seq![ArgumentDecodingInfo::LongLong, ArgumentDecodingInfo::Bits])
        } else {
            None
        }
    } else if cid == 90 {
        if mid == 10 {
            Some(Seq::empty())
        } else if mid == 11 {
            Some(Seq::empty())
        } else if mid == 20 {
            Some(Seq::empty())
        } else if mid == 21 {
            Some(Seq::empty())
        } else if mid == 30 {
            Some(Seq::empty())
        } else if mid == 31 {
            Some(Seq::empty())
        } else {
            None
        }
    } else {
        None
    }
}

/// Executable schema lookup.
pub fn schema_of(cid: u16, mid: u16) -> (r: Option<Vec<ArgumentDecodingInfo>>)
    ensures
        r is Some <==> schema(cid, mid) is Some,
        r matches Some(v) ==> schema(cid, mid) == Some(v@),
{
    let tys: Vec<ArgumentDecodingInfo> = match (cid, mid) {
        (10, 10) => vec![ArgumentDecodingInfo::Octet, ArgumentDecodingInfo::Octet, ArgumentDecodingInfo::FieldTable, ArgumentDecodingInfo::LongString, ArgumentDecodingInfo::LongString],
        (10, 11) => vec![ArgumentDecodingInfo::FieldTable, ArgumentDecodingInfo::ShortString, ArgumentDecodingInfo::LongString, ArgumentDecodingInfo::ShortString],
        (10, 20) => vec![ArgumentDecodingInfo::LongString],
        (10, 21) => vec![ArgumentDecodingInfo::LongString],
        (10, 30) => vec![ArgumentDecodingInfo::Short, ArgumentDecodingInfo::Long, ArgumentDecodingInfo::Short],
        (10, 31) => vec![ArgumentDecodingInfo::Short, ArgumentDecodingInfo::Long, ArgumentDecodingInfo::Short],
        (10, 40) => vec![ArgumentDecodingInfo::ShortString, ArgumentDecodingInfo::ShortString, ArgumentDecodingInfo::Bits],
        (10, 41) => vec![ArgumentDecodingInfo::ShortString],
        (10, 50) => vec![ArgumentDecodingInfo::Short, ArgumentDecodingInfo::ShortString, ArgumentDecodingInfo::Short, ArgumentDecodingInfo::Short],
        (10, 51) => Vec::new(),
        (10, 60) => vec![ArgumentDecodingInfo::ShortString],
        (10, 61) => Vec::new(),
        (20, 10) => vec![ArgumentDecodingInfo::ShortString],
        (20, 11) => vec![ArgumentDecodingInfo::LongString],
        (20, 20) => vec![ArgumentDecodingInfo::Bits],
        (20, 21) => vec![ArgumentDecodingInfo::Bits],
        (20, 40) => vec![ArgumentDecodingInfo::Short, ArgumentDecodingInfo::ShortString, ArgumentDecodingInfo::Short, ArgumentDecodingInfo::Short],
        (20, 41) => Vec::new(),
        (40, 10) => vec![ArgumentDecodingInfo::Short, ArgumentDecodingInfo::ShortString, ArgumentDecodingInfo::ShortString, ArgumentDecodingInfo::Bits, ArgumentDecodingInfo::FieldTable],
        (40, 11) => Vec::new(),
        (40, 20) => vec![ArgumentDecodingInfo::Short, ArgumentDecodingInfo::ShortString, ArgumentDecodingInfo::Bits],
        (40, 21) => Vec::new(),
        (40, 30) => vec![ArgumentDecodingInfo::Short, ArgumentDecodingInfo::ShortString, ArgumentDecodingInfo::ShortString, ArgumentDecodingInfo::ShortString, ArgumentDecodingInfo::Bits, ArgumentDecodingInfo::FieldTable],
        (40, 31) => Vec::new(),
        (40, 40) => vec![ArgumentDecodingInfo::Short, ArgumentDecodingInfo::ShortString, ArgumentDecodingInfo::ShortString, ArgumentDecodingInfo::ShortString, ArgumentDecodingInfo::Bits, ArgumentDecodingInfo::FieldTable],
        (40, 51) => Vec::new(),
        (50, 10) => vec![ArgumentDecodingInfo::Short, ArgumentDecodingInfo::ShortString, ArgumentDecodingInfo::Bits, ArgumentDecodingInfo::FieldTable],
        (50, 11) => vec![ArgumentDecodingInfo::ShortString, ArgumentDecodingInfo::Long, ArgumentDecodingInfo::Long],
        (50, 20) => vec![ArgumentDecodingInfo::Short, ArgumentDecodingInfo::ShortString, ArgumentDecodingInfo::ShortString, ArgumentDecodingInfo::ShortString, ArgumentDecodingInfo::Bits, ArgumentDecodingInfo::FieldTable],
        (50, 21) => Vec::new(),
        (50, 30) => vec![ArgumentDecodingInfo::Short, ArgumentDecodingInfo::ShortString, ArgumentDecodingInfo::Bits],
        (50, 31) => vec![ArgumentDecodingInfo::Long],
        (50, 40) => vec![ArgumentDecodingInfo::Short, ArgumentDecodingInfo::ShortString, ArgumentDecodingInfo::Bits],
        (50, 41) => vec![ArgumentDecodingInfo::Long],
        (50, 50) => vec![ArgumentDecodingInfo::Short, ArgumentDecodingInfo::ShortString, ArgumentDecodingInfo::ShortString, ArgumentDecodingInfo::ShortString, ArgumentDecodingInfo::FieldTable],
        (50, 51) => Vec::new(),
        (60, 10) => vec![ArgumentDecodingInfo::Long, ArgumentDecodingInfo::Short, ArgumentDecodingInfo::Bits],
        (60, 11) => Vec::new(),
        (60, 20) => vec![ArgumentDecodingInfo::Short, ArgumentDecodingInfo::ShortString, ArgumentDecodingInfo::ShortString, ArgumentDecodingInfo::Bits, ArgumentDecodingInfo::FieldTable],
        (60, 21) => vec![ArgumentDecodingInfo::ShortString],
        (60, 30) => vec![ArgumentDecodingInfo::ShortString, ArgumentDecodingInfo::Bits],
        (60, 31) => vec![ArgumentDecodingInfo::ShortString],
        (60, 40) => vec![ArgumentDecodingInfo::Short, ArgumentDecodingInfo::ShortString, ArgumentDecodingInfo::ShortString, ArgumentDecodingInfo::Bits],
        (60, 50) => vec![ArgumentDecodingInfo::Short, ArgumentDecodingInfo::ShortString, ArgumentDecodingInfo::ShortString, ArgumentDecodingInfo::ShortString],
        (60, 60) => vec![ArgumentDecodingInfo::ShortString, ArgumentDecodingInfo::LongLong, ArgumentDecodingInfo::Bits, ArgumentDecodingInfo::ShortString, ArgumentDecodingInfo::ShortString],
        (60, 70) => vec![ArgumentDecodingInfo::Short, ArgumentDecodingInfo::ShortString, ArgumentDecodingInfo::Bits],
        (60, 71) => vec![ArgumentDecodingInfo::LongLong, ArgumentDecodingInfo::Bits, ArgumentDecodingInfo::ShortString, ArgumentDecodingInfo::ShortString, ArgumentDecodingInfo::Long],
        (60, 72) => vec![ArgumentDecodingInfo::ShortString],
        (60, 80) => vec![ArgumentDecodingInfo::LongLong, ArgumentDecodingInfo::Bits],
        (60, 90) => vec![ArgumentDecodingInfo::LongLong, ArgumentDecodingInfo::Bits],
        (60, 100) => vec![ArgumentDecodingInfo::Bits],
        (60, 110) => vec![ArgumentDecodingInfo::Bits],
        (60, 111) => Vec::new(),
        (60, 120) => vec![ArgumentDecodingInfo::LongLong, ArgumentDecodingInfo::Bits],
        (90, 10) => Vec::new(),
        (90, 11) => Vec::new(),
        (90, 20) => Vec::new(),
        (90, 21) => Vec::new(),
        (90, 30) => Vec::new(),
        (90, 31) => Vec::new(),
        _ => {
            return None;
        },
    };
    proof {
        assert(schema(cid, mid) matches Some(s) && s =~= tys@);
    }
    Some(tys)
}

/// Every method's argument list matches its schema.
pub proof fn lemma_margs_match_schema(p: MethodPayload)
    ensures
        schema(cid_of(p), mid_of(p)) matches Some(tys) && args_match(margs_of(p), tys),
{
    match p {
        MethodPayload::Connection(c) => {
            match c {
                ConnectionClass::Start(_) => {
                    assert(args_match(margs_of(p), seq![ArgumentDecodingInfo::Octet, ArgumentDecodingInfo::Octet, ArgumentDecodingInfo::FieldTable, ArgumentDecodingInfo::LongString, ArgumentDecodingInfo::LongString]));
                },
                ConnectionClass::StartOk(_) => {
                    assert(args_match(margs_of(p), seq![ArgumentDecodingInfo::FieldTable, ArgumentDecodingInfo::ShortString, ArgumentDecodingInfo::LongString, ArgumentDecodingInfo::ShortString]));
                },
                ConnectionClass::Secure(_) => {
                    assert(args_match(margs_of(p), seq![ArgumentDecodingInfo::LongString]));
                },
                ConnectionClass::SecureOk(_) => {
                    assert(args_match(margs_of(p), seq![ArgumentDecodingInfo::LongString]));
                },
                ConnectionClass::Tune(_) => {
                    assert(args_match(margs_of(p), seq![ArgumentDecodingInfo::Short, ArgumentDecodingInfo::Long, ArgumentDecodingInfo::Short]));
                },
                ConnectionClass::TuneOk(_) => {
                    assert(args_match(margs_of(p), seq![ArgumentDecodingInfo::Short, ArgumentDecodingInfo::Long, ArgumentDecodingInfo::Short]));
                },
                ConnectionClass::Open(_) => {
                    assert(args_match(margs_of(p), seq![ArgumentDecodingInfo::ShortString, ArgumentDecodingInfo::ShortString, ArgumentDecodingInfo::Bits]));
                },
                ConnectionClass::OpenOk(_) => {
                    assert(args_match(margs_of(p), seq![ArgumentDecodingInfo::ShortString]));
                },
                ConnectionClass::Close(_) => {
                    assert(args_match(margs_of(p), seq![ArgumentDecodingInfo::Short, ArgumentDecodingInfo::ShortString, ArgumentDecodingInfo::Short, ArgumentDecodingInfo::Short]));
                },
                ConnectionClass::CloseOk => {
                    assert(args_match(margs_of(p), Seq::empty()));
                },
                ConnectionClass::Blocked(_) => {
                    assert(args_match(margs_of(p), seq![ArgumentDecodingInfo::ShortString]));
                },
                ConnectionClass::Unblocked => {
                    assert(args_match(margs_of(p), Seq::empty()));
                },
            }
        },
        MethodPayload::Channel(c) => {
            match c {
                ChannelClass::Open(_) => {
                    assert(args_match(margs_of(p), seq![ArgumentDecodingInfo::ShortString]));
                },
                ChannelClass::OpenOk(_) => {
                    assert(args_match(margs_of(p), seq![ArgumentDecodingInfo::LongString]));
                },
                ChannelClass::Flow(_) => {
                    assert(args_match(margs_of(p), seq![ArgumentDecodingInfo::Bits]));
                },
                ChannelClass::FlowOk(_) => {
                    assert(args_match(margs_of(p), seq![ArgumentDecodingInfo::Bits]));
                },
                ChannelClass::Close(_) => {
                    assert(args_match(margs_of(p), seq![ArgumentDecodingInfo::Short, ArgumentDecodingInfo::ShortString, ArgumentDecodingInfo::Short, ArgumentDecodingInfo::Short]));
                },
                ChannelClass::CloseOk => {
                    assert(args_match(margs_of(p), Seq::empty()));
                },
            }
        },
        MethodPayload::Exchange(c) => {
            match c {
                ExchangeClass::Declare(_) => {
                    assert(args_match(margs_of(p), seq![ArgumentDecodingInfo::Short, ArgumentDecodingInfo::ShortString, ArgumentDecodingInfo::ShortString, ArgumentDecodingInfo::Bits, ArgumentDecodingInfo::FieldTable]));
                },
                ExchangeClass::DeclareOk => {
                    assert(args_match(margs_of(p), Seq::empty()));
                },
                ExchangeClass::Delete(_) => {
                    assert(args_match(margs_of(p), seq![ArgumentDecodingInfo::Short, ArgumentDecodingInfo::ShortString, ArgumentDecodingInfo::Bits]));
                },
                ExchangeClass::DeleteOk => {
                    assert(args_match(margs_of(p), Seq::empty()));
                },
                ExchangeClass::Bind(_) => {
                    assert(args_match(margs_of(p), seq![ArgumentDecodingInfo::Short, ArgumentDecodingInfo::ShortString, ArgumentDecodingInfo::ShortString, ArgumentDecodingInfo::ShortString, ArgumentDecodingInfo::Bits, ArgumentDecodingInfo::FieldTable]));
                },
                ExchangeClass::BindOk => {
                    assert(args_match(margs_of(p), Seq::empty()));
                },
                ExchangeClass::Unbind(_) => {
                    assert(args_match(margs_of(p), seq![ArgumentDecodingInfo::Short, ArgumentDecodingInfo::ShortString, ArgumentDecodingInfo::ShortString, ArgumentDecodingInfo::ShortString, ArgumentDecodingInfo::Bits, ArgumentDecodingInfo::FieldTable]));
                },
                ExchangeClass::UnbindOk => {
                    assert(args_match(margs_of(p), Seq::empty()));
                },
            }
        },
        MethodPayload::Queue(c) => {
            match c {
                QueueClass::Declare(_) => {
                    assert(args_match(margs_of(p), seq![ArgumentDecodingInfo::Short, ArgumentDecodingInfo::ShortString, ArgumentDecodingInfo::Bits, ArgumentDecodingInfo::FieldTable]));
                },
                QueueClass::DeclareOk(_) => {
                    assert(args_match(margs_of(p), seq![ArgumentDecodingInfo::ShortString, ArgumentDecodingInfo::Long, ArgumentDecodingInfo::Long]));
                },
                QueueClass::Bind(_) => {
                    assert(args_match(margs_of(p), seq![ArgumentDecodingInfo::Short, ArgumentDecodingInfo::ShortString, ArgumentDecodingInfo::ShortString, ArgumentDecodingInfo::ShortString, ArgumentDecodingInfo::Bits, ArgumentDecodingInfo::FieldTable]));
                },
                QueueClass::BindOk => {
                    assert(args_match(margs_of(p), Seq::empty()));
                },
                QueueClass::Purge(_) => {
                    assert(args_match(margs_of(p), seq![ArgumentDecodingInfo::Short, ArgumentDecodingInfo::ShortString, ArgumentDecodingInfo::Bits]));
                },
                QueueClass::PurgeOk(_) => {
                    assert(args_match(margs_of(p), seq![ArgumentDecodingInfo::Long]));
                },
                QueueClass::Delete(_) => {
                    assert(args_match(margs_of(p), seq![ArgumentDecodingInfo::Short, ArgumentDecodingInfo::ShortString, ArgumentDecodingInfo::Bits]));
                },
                QueueClass::DeleteOk(_) => {
                    assert(args_match(margs_of(p), seq![ArgumentDecodingInfo::Long]));
                },
                QueueClass::Unbind(_) => {
                    assert(args_match(margs_of(p), seq![ArgumentDecodingInfo::Short, ArgumentDecodingInfo::ShortString, ArgumentDecodingInfo::ShortString, ArgumentDecodingInfo::ShortString, ArgumentDecodingInfo::FieldTable]));
                },
                QueueClass::UnbindOk => {
                    assert(args_match(margs_of(p), Seq::empty()));
                },
            }
        },
        MethodPayload::Basic(c) => {
            match c {
                BasicClass::Qos(_) => {
                    assert(args_match(margs_of(p), seq![ArgumentDecodingInfo::Long, ArgumentDecodingInfo::Short, ArgumentDecodingInfo::Bits]));
                },
                BasicClass::QosOk => {
                    assert(args_match(margs_of(p), Seq::empty()));
                },
                BasicClass::Consume(_) => {
                    assert(args_match(margs_of(p), seq![ArgumentDecodingInfo::Short, ArgumentDecodingInfo::ShortString, ArgumentDecodingInfo::ShortString, ArgumentDecodingInfo::Bits, ArgumentDecodingInfo::FieldTable]));
                },
                BasicClass::ConsumeOk(_) => {
                    assert(args_match(margs_of(p), seq![ArgumentDecodingInfo::ShortString]));
                },
                BasicClass::Cancel(_) => {
                    assert(args_match(margs_of(p), seq![ArgumentDecodingInfo::ShortString, ArgumentDecodingInfo::Bits]));
                },
                BasicClass::CancelOk(_) => {
                    assert(args_match(margs_of(p), seq![ArgumentDecodingInfo::ShortString]));
                },
                BasicClass::Publish(_) => {
                    assert(args_match(margs_of(p), seq![ArgumentDecodingInfo::Short, ArgumentDecodingInfo::ShortString, ArgumentDecodingInfo::ShortString, ArgumentDecodingInfo::Bits]));
                },
                BasicClass::Return(_) => {
                    assert(args_match(margs_of(p), seq![ArgumentDecodingInfo::Short, ArgumentDecodingInfo::ShortString, ArgumentDecodingInfo::ShortString, ArgumentDecodingInfo::ShortString]));
                },
                BasicClass::Deliver(_) => {
                    assert(args_match(margs_of(p), seq![ArgumentDecodingInfo::ShortString, ArgumentDecodingInfo::LongLong, ArgumentDecodingInfo::Bits, ArgumentDecodingInfo::ShortString, ArgumentDecodingInfo::ShortString]));
                },
                BasicClass::Get(_) => {
                    assert(args_match(margs_of(p), seq![ArgumentDecodingInfo::Short, ArgumentDecodingInfo::ShortString, ArgumentDecodingInfo::Bits]));
                },
                BasicClass::GetOk(_) => {
                    assert(args_match(margs_of(p), seq![ArgumentDecodingInfo::LongLong, ArgumentDecodingInfo::Bits, ArgumentDecodingInfo::ShortString, ArgumentDecodingInfo::ShortString, ArgumentDecodingInfo::Long]));
                },
                BasicClass::GetEmpty(_) => {
                    assert(args_match(margs_of(p), seq![ArgumentDecodingInfo::ShortString]));
                },
                BasicClass::Ack(_) => {
                    assert(args_match(margs_of(p), seq![ArgumentDecodingInfo::LongLong, ArgumentDecodingInfo::Bits]));
                },
                BasicClass::Reject(_) => {
                    assert(args_match(margs_of(p), seq![ArgumentDecodingInfo::LongLong, ArgumentDecodingInfo::Bits]));
                },
                BasicClass::RecoverAsync(_) => {
                    assert(args_match(margs_of(p), seq![ArgumentDecodingInfo::Bits]));
                },
                BasicClass::Recover(_) => {
                    assert(args_match(margs_of(p), seq![ArgumentDecodingInfo::Bits]));
                },
                BasicClass::RecoverOk => {
                    assert(args_match(margs_of(p), Seq::empty()));
                },
                BasicClass::Nack(_) => {
                    assert(args_match(margs_of(p), seq![ArgumentDecodingInfo::LongLong, ArgumentDecodingInfo::Bits]));
                },
            }
        },
        MethodPayload::Tx(c) => {
            match c {
                TxClass::Select => {
                    assert(args_match(margs_of(p), Seq::empty()));
                },
                TxClass::SelectOk => {
                    assert(args_match(margs_of(p), Seq::empty()));
                },
                TxClass::Commit => {
                    assert(args_match(margs_of(p), Seq::empty()));
                },
                TxClass::CommitOk => {
                    assert(args_match(margs_of(p), Seq::empty()));
                },
                TxClass::Rollback => {
                    assert(args_match(margs_of(p), Seq::empty()));
                },
                TxClass::RollbackOk => {
                    assert(args_match(margs_of(p), Seq::empty()));
                },
            }
        },
    }
}

impl MethodPayload {
    pub fn connection(&self) -> (r: Option<&ConnectionClass>)
        ensures
            match r {
                Some(c) => *self == MethodPayload::Connection(*c),
                None => !(*self is Connection),
            },
    {
        match self {
            MethodPayload::Connection(c) => Some(c),
            _ => None,
        }
    }

    pub fn channel(&self) -> (r: Option<&ChannelClass>)
        ensures
            match r {
                Some(c) => *self == MethodPayload::Channel(*c),
                None => !(*self is Channel),
            },
    {
        match self {
            MethodPayload::Channel(c) => Some(c),
            _ => None,
        }
    }

    pub fn exchange(&self) -> (r: Option<&ExchangeClass>)
        ensures
            match r {
                Some(c) => *self == MethodPayload::Exchange(*c),
                None => !(*self is Exchange),
            },
    {
        match self {
            MethodPayload::Exchange(c) => Some(c),
            _ => None,
        }
    }

    pub fn queue(&self) -> (r: Option<&QueueClass>)
        ensures
            match r {
                Some(c) => *self == MethodPayload::Queue(*c),
                None => !(*self is Queue),
            },
    {
        match self {
            MethodPayload::Queue(c) => Some(c),
            _ => None,
        }
    }

    pub fn basic(&self) -> (r: Option<&BasicClass>)
        ensures
            match r {
                Some(c) => *self == MethodPayload::Basic(*c),
                None => !(*self is Basic),
            },
    {
        match self {
            MethodPayload::Basic(c) => Some(c),
            _ => None,
        }
    }

    pub fn tx(&self) -> (r: Option<&TxClass>)
        ensures
            match r {
                Some(c) => *self == MethodPayload::Tx(*c),
                None => !(*self is Tx),
            },
    {
        match self {
            MethodPayload::Tx(c) => Some(c),
            _ => None,
        }
    }

}

} // verus!
