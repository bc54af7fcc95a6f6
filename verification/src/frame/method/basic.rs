//! Basic class methods (class id 60).

use vstd::prelude::*;

use crate::args::{AmqpString, FieldTable, table_model};
use crate::methods::args::{
    Argument, Arguments, ArgModel, args_model, arg_model, pack_bits1, pack_bits2,
    pack_bits3, pack_bits4, pack_bits5, pack1, pack2, pack3, pack4, pack5, unpack_bit,
    take_octet, take_short, take_long, take_longlong, take_bits, take_short_string,
    take_long_string, take_timestamp, take_table, lemma_bit_packing,
    lemma_args_model_index,
};

verus! {

#[derive(Debug, PartialEq)]
pub enum BasicClass {
    Qos(QosMethod),
    QosOk,
    Consume(ConsumeMethod),
    ConsumeOk(ConsumeOkMethod),
    Cancel(CancelMethod),
    CancelOk(CancelOkMethod),
    Publish(PublishMethod),
    Return(ReturnMethod),
    Deliver(DeliverMethod),
    Get(GetMethod),
    GetOk(GetOkMethod),
    GetEmpty(GetEmptyMethod),
    Ack(AckMethod),
    Reject(RejectMethod),
    RecoverAsync(RecoverAsyncMethod),
    Recover(RecoverMethod),
    RecoverOk,
    Nack(NackMethod),
}

#[derive(Debug, PartialEq)]
pub struct QosMethod {
    pub prefetch_size: u32,
    pub prefetch_count: u16,
    pub global_: bool,
}

#[derive(Debug, PartialEq)]
pub struct ConsumeMethod {
    pub reserved1: u16,
    pub queue: AmqpString,
    pub consumer_tag: AmqpString,
    pub no_local: bool,
    pub no_ack: bool,
    pub exclusive: bool,
    pub no_wait: bool,
    pub arguments: FieldTable,
}

#[derive(Debug, PartialEq)]
pub struct ConsumeOkMethod {
    pub consumer_tag: AmqpString,
}

#[derive(Debug, PartialEq)]
pub struct CancelMethod {
    pub consumer_tag: AmqpString,
    pub no_wait: bool,
}

#[derive(Debug, PartialEq)]
pub struct CancelOkMethod {
    pub consumer_tag: AmqpString,
}

#[derive(Debug, PartialEq)]
pub struct PublishMethod {
    pub reserved1: u16,
    pub exchange: AmqpString,
    pub routing_key: AmqpString,
    pub mandatory: bool,
    pub immediate: bool,
}

#[derive(Debug, PartialEq)]
pub struct ReturnMethod {
    pub reply_code: u16,
    pub reply_text: AmqpString,
    pub exchange: AmqpString,
    pub routing_key: AmqpString,
}

#[derive(Debug, PartialEq)]
pub struct DeliverMethod {
    pub consumer_tag: AmqpString,
    pub delivery_tag: u64,
    pub redeliverd: bool,
    pub exchange: AmqpString,
    pub routing_key: AmqpString,
}

#[derive(Debug, PartialEq)]
pub struct GetMethod {
    pub reserved1: u16,
    pub queue: AmqpString,
    pub no_ack: bool,
}

#[derive(Debug, PartialEq)]
pub struct GetOkMethod {
    pub delivery_tag: u64,
    pub redeliverd: bool,
    pub exchange: AmqpString,
    pub routing_key: AmqpString,
    pub message_count: u32,
}

#[derive(Debug, PartialEq)]
pub struct GetEmptyMethod {
    pub reserved1: AmqpString,
}

#[derive(Debug, PartialEq)]
pub struct AckMethod {
    pub delivery_tag: u64,
    pub multiple: bool,
}

#[derive(Debug, PartialEq)]
pub struct RejectMethod {
    pub delivery_tag: u64,
    pub requeue: bool,
}

#[derive(Debug, PartialEq)]
pub struct RecoverAsyncMethod {
    pub requeue: bool,
}

#[derive(Debug, PartialEq)]
pub struct RecoverMethod {
    pub requeue: bool,
}

#[derive(Debug, PartialEq)]
pub struct NackMethod {
    pub delivery_tag: u64,
    pub multiple: bool,
}

/// The method id of a basic method.
pub open spec fn basic_mid(c: BasicClass) -> u16 {
    match c {
        BasicClass::Qos(_) => 10,
        BasicClass::QosOk => 11,
        BasicClass::Consume(_) => 20,
        BasicClass::ConsumeOk(_) => 21,
        BasicClass::Cancel(_) => 30,
        BasicClass::CancelOk(_) => 31,
        BasicClass::Publish(_) => 40,
        BasicClass::Return(_) => 50,
        BasicClass::Deliver(_) => 60,
        BasicClass::Get(_) => 70,
        BasicClass::GetOk(_) => 71,
        BasicClass::GetEmpty(_) => 72,
        BasicClass::Ack(_) => 80,
        BasicClass::Reject(_) => 90,
        BasicClass::RecoverAsync(_) => 100,
        BasicClass::Recover(_) => 110,
        BasicClass::RecoverOk => 111,
        BasicClass::Nack(_) => 120,
    }
}

/// The argument list a basic method encodes to.
pub open spec fn basic_margs(c: BasicClass) -> Seq<ArgModel> {
    match c {
        BasicClass::Qos(m) => seq![
            ArgModel::Long(m.prefetch_size),
            ArgModel::Short(m.prefetch_count),
            ArgModel::Bits(pack_bits1(m.global_)),
        ],
        BasicClass::QosOk => Seq::empty(),
        BasicClass::Consume(m) => seq![
            ArgModel::Short(m.reserved1),
            ArgModel::ShortString(m.queue@),
            ArgModel::ShortString(m.consumer_tag@),
            ArgModel::Bits(pack_bits4(m.no_local, m.no_ack, m.exclusive, m.no_wait)),
            ArgModel::FieldTable(table_model(m.arguments.0@)),
        ],
        BasicClass::ConsumeOk(m) => seq![
            ArgModel::ShortString(m.consumer_tag@),
        ],
        BasicClass::Cancel(m) => seq![
            ArgModel::ShortString(m.consumer_tag@),
            ArgModel::Bits(pack_bits1(m.no_wait)),
        ],
        BasicClass::CancelOk(m) => seq![
            ArgModel::ShortString(m.consumer_tag@),
        ],
        BasicClass::Publish(m) => seq![
            ArgModel::Short(m.reserved1),
            ArgModel::ShortString(m.exchange@),
            ArgModel::ShortString(m.routing_key@),
            ArgModel::Bits(pack_bits2(m.mandatory, m.immediate)),
        ],
        BasicClass::Return(m) => seq![
            ArgModel::Short(m.reply_code),
            ArgModel::ShortString(m.reply_text@),
            ArgModel::ShortString(m.exchange@),
            ArgModel::ShortString(m.routing_key@),
        ],
        BasicClass::Deliver(m) => seq![
            ArgModel::ShortString(m.consumer_tag@),
            ArgModel::LongLong(m.delivery_tag),
            ArgModel::Bits(pack_bits1(m.redeliverd)),
            ArgModel::ShortString(m.exchange@),
            ArgModel::ShortString(m.routing_key@),
        ],
        BasicClass::Get(m) => seq![
            ArgModel::Short(m.reserved1),
            ArgModel::ShortString(m.queue@),
            ArgModel::Bits(pack_bits1(m.no_ack)),
        ],
        BasicClass::GetOk(m) => seq![
            ArgModel::LongLong(m.delivery_tag),
            ArgModel::Bits(pack_bits1(m.redeliverd)),
            ArgModel::ShortString(m.exchange@),
            ArgModel::ShortString(m.routing_key@),
            ArgModel::Long(m.message_count),
        ],
        BasicClass::GetEmpty(m) => seq![
            ArgModel::ShortString(m.reserved1@),
        ],
        BasicClass::Ack(m) => seq![
            ArgModel::LongLong(m.delivery_tag),
            ArgModel::Bits(pack_bits1(m.multiple)),
        ],
        BasicClass::Reject(m) => seq![
            ArgModel::LongLong(m.delivery_tag),
            ArgModel::Bits(pack_bits1(m.requeue)),
        ],
        BasicClass::RecoverAsync(m) => seq![
            ArgModel::Bits(pack_bits1(m.requeue)),
        ],
        BasicClass::Recover(m) => seq![
            ArgModel::Bits(pack_bits1(m.requeue)),
        ],
        BasicClass::RecoverOk => Seq::empty(),
        BasicClass::Nack(m) => seq![
            ArgModel::LongLong(m.delivery_tag),
            ArgModel::Bits(pack_bits1(m.multiple)),
        ],
    }
}

impl BasicClass {
    pub fn qos(&self) -> (r: Option<&QosMethod>)
        ensures
            match r {
                Some(m) => *self == BasicClass::Qos(*m),
                None => !(*self is Qos),
            },
    {
        match self {
            BasicClass::Qos(m) => Some(m),
            _ => None,
        }
    }

    pub fn qos_ok(&self) -> (r: Option<()>)
        ensures
            r is Some <==> *self is QosOk,
    {
        match self {
            BasicClass::QosOk => Some(()),
            _ => None,
        }
    }

    pub fn consume(&self) -> (r: Option<&ConsumeMethod>)
        ensures
            match r {
                Some(m) => *self == BasicClass::Consume(*m),
                None => !(*self is Consume),
            },
    {
        match self {
            BasicClass::Consume(m) => Some(m),
            _ => None,
        }
    }

    pub fn consume_ok(&self) -> (r: Option<&ConsumeOkMethod>)
        ensures
            match r {
                Some(m) => *self == BasicClass::ConsumeOk(*m),
                None => !(*self is ConsumeOk),
            },
    {
        match self {
            BasicClass::ConsumeOk(m) => Some(m),
            _ => None,
        }
    }

    pub fn cancel(&self) -> (r: Option<&CancelMethod>)
        ensures
            match r {
                Some(m) => *self == BasicClass::Cancel(*m),
                None => !(*self is Cancel),
            },
    {
        match self {
            BasicClass::Cancel(m) => Some(m),
            _ => None,
        }
    }

    pub fn cancel_ok(&self) -> (r: Option<&CancelOkMethod>)
        ensures
            match r {
                Some(m) => *self == BasicClass::CancelOk(*m),
                None => !(*self is CancelOk),
            },
    {
        match self {
            BasicClass::CancelOk(m) => Some(m),
            _ => None,
        }
    }

    pub fn publish(&self) -> (r: Option<&PublishMethod>)
        ensures
            match r {
                Some(m) => *self == BasicClass::Publish(*m),
                None => !(*self is Publish),
            },
    {
        match self {
            BasicClass::Publish(m) => Some(m),
            _ => None,
        }
    }

    pub fn return_(&self) -> (r: Option<&ReturnMethod>)
        ensures
            match r {
                Some(m) => *self == BasicClass::Return(*m),
                None => !(*self is Return),
            },
    {
        match self {
            BasicClass::Return(m) => Some(m),
            _ => None,
        }
    }

    pub fn deliver(&self) -> (r: Option<&DeliverMethod>)
        ensures
            match r {
                Some(m) => *self == BasicClass::Deliver(*m),
                None => !(*self is Deliver),
            },
    {
        match self {
            BasicClass::Deliver(m) => Some(m),
            _ => None,
        }
    }

    pub fn get(&self) -> (r: Option<&GetMethod>)
        ensures
            match r {
                Some(m) => *self == BasicClass::Get(*m),
                None => !(*self is Get),
            },
    {
        match self {
            BasicClass::Get(m) => Some(m),
            _ => None,
        }
    }

    pub fn get_ok(&self) -> (r: Option<&GetOkMethod>)
        ensures
            match r {
                Some(m) => *self == BasicClass::GetOk(*m),
                None => !(*self is GetOk),
            },
    {
        match self {
            BasicClass::GetOk(m) => Some(m),
            _ => None,
        }
    }

    pub fn get_empty(&self) -> (r: Option<&GetEmptyMethod>)
        ensures
            match r {
                Some(m) => *self == BasicClass::GetEmpty(*m),
                None => !(*self is GetEmpty),
            },
    {
        match self {
            BasicClass::GetEmpty(m) => Some(m),
            _ => None,
        }
    }

    pub fn ack(&self) -> (r: Option<&AckMethod>)
        ensures
            match r {
                Some(m) => *self == BasicClass::Ack(*m),
                None => !(*self is Ack),
            },
    {
        match self {
            BasicClass::Ack(m) => Some(m),
            _ => None,
        }
    }

    pub fn reject(&self) -> (r: Option<&RejectMethod>)
        ensures
            match r {
                Some(m) => *self == BasicClass::Reject(*m),
                None => !(*self is Reject),
            },
    {
        match self {
            BasicClass::Reject(m) => Some(m),
            _ => None,
        }
    }

    pub fn recover_async(&self) -> (r: Option<&RecoverAsyncMethod>)
        ensures
            match r {
                Some(m) => *self == BasicClass::RecoverAsync(*m),
                None => !(*self is RecoverAsync),
            },
    {
        match self {
            BasicClass::RecoverAsync(m) => Some(m),
            _ => None,
        }
    }

    pub fn recover(&self) -> (r: Option<&RecoverMethod>)
        ensures
            match r {
                Some(m) => *self == BasicClass::Recover(*m),
                None => !(*self is Recover),
            },
    {
        match self {
            BasicClass::Recover(m) => Some(m),
            _ => None,
        }
    }

    pub fn recover_ok(&self) -> (r: Option<()>)
        ensures
            r is Some <==> *self is RecoverOk,
    {
        match self {
            BasicClass::RecoverOk => Some(()),
            _ => None,
        }
    }

    pub fn nack(&self) -> (r: Option<&NackMethod>)
        ensures
            match r {
                Some(m) => *self == BasicClass::Nack(*m),
                None => !(*self is Nack),
            },
    {
        match self {
            BasicClass::Nack(m) => Some(m),
            _ => None,
        }
    }

    /// Turn the method into its method id and argument list.
    pub fn into_args(self) -> (r: (u16, Arguments))
        ensures
            r.0 == basic_mid(self),
            args_model(r.1.0@) == basic_margs(self),
    {
        let mut v: Vec<Argument> = Vec::new();
        let mid: u16 = match self {
            BasicClass::Qos(m) => {
                v.push(Argument::Long(m.prefetch_size));
                v.push(Argument::Short(m.prefetch_count));
                v.push(Argument::Bits(pack1(m.global_)));
                10
            },
            BasicClass::QosOk => 11,
            BasicClass::Consume(m) => {
                v.push(Argument::Short(m.reserved1));
                v.push(Argument::ShortString(m.queue));
                v.push(Argument::ShortString(m.consumer_tag));
                v.push(Argument::Bits(pack4(m.no_local, m.no_ack, m.exclusive, m.no_wait)));
                v.push(Argument::FieldTable(m.arguments));
                20
            },
            BasicClass::ConsumeOk(m) => {
                v.push(Argument::ShortString(m.consumer_tag));
                21
            },
            BasicClass::Cancel(m) => {
                v.push(Argument::ShortString(m.consumer_tag));
                v.push(Argument::Bits(pack1(m.no_wait)));
                30
            },
            BasicClass::CancelOk(m) => {
                v.push(Argument::ShortString(m.consumer_tag));
                31
            },
            BasicClass::Publish(m) => {
                v.push(Argument::Short(m.reserved1));
                v.push(Argument::ShortString(m.exchange));
                v.push(Argument::ShortString(m.routing_key));
                v.push(Argument::Bits(pack2(m.mandatory, m.immediate)));
                40
            },
            BasicClass::Return(m) => {
                v.push(Argument::Short(m.reply_code));
                v.push(Argument::ShortString(m.reply_text));
                v.push(Argument::ShortString(m.exchange));
                v.push(Argument::ShortString(m.routing_key));
                50
            },
            BasicClass::Deliver(m) => {
                v.push(Argument::ShortString(m.consumer_tag));
                v.push(Argument::LongLong(m.delivery_tag));
                v.push(Argument::Bits(pack1(m.redeliverd)));
                v.push(Argument::ShortString(m.exchange));
                v.push(Argument::ShortString(m.routing_key));
                60
            },
            BasicClass::Get(m) => {
                v.push(Argument::Short(m.reserved1));
                v.push(Argument::ShortString(m.queue));
                v.push(Argument::Bits(pack1(m.no_ack)));
                70
            },
            BasicClass::GetOk(m) => {
                v.push(Argument::LongLong(m.delivery_tag));
                v.push(Argument::Bits(pack1(m.redeliverd)));
                v.push(Argument::ShortString(m.exchange));
                v.push(Argument::ShortString(m.routing_key));
                v.push(Argument::Long(m.message_count));
                71
            },
            BasicClass::GetEmpty(m) => {
                v.push(Argument::ShortString(m.reserved1));
                72
            },
            BasicClass::Ack(m) => {
                v.push(Argument::LongLong(m.delivery_tag));
                v.push(Argument::Bits(pack1(m.multiple)));
                80
            },
            BasicClass::Reject(m) => {
                v.push(Argument::LongLong(m.delivery_tag));
                v.push(Argument::Bits(pack1(m.requeue)));
                90
            },
            BasicClass::RecoverAsync(m) => {
                v.push(Argument::Bits(pack1(m.requeue)));
                100
            },
            BasicClass::Recover(m) => {
                v.push(Argument::Bits(pack1(m.requeue)));
                110
            },
            BasicClass::RecoverOk => 111,
            BasicClass::Nack(m) => {
                v.push(Argument::LongLong(m.delivery_tag));
                v.push(Argument::Bits(pack1(m.multiple)));
                120
            },
        };
        proof {
            assert(args_model(v@) =~= basic_margs(self));
        }
        (mid, Arguments(v))
    }

    /// Rebuild the method from its method id and argument list.  Succeeds on
    /// the argument list of any method of this class with this id.
    #[verifier::rlimit(100)]
    #[verifier::spinoff_prover]
    pub fn from_args(mid: u16, args: Arguments) -> (r: Option<BasicClass>)
        ensures
            r matches Some(g) ==> basic_mid(g) == mid,
            forall|c: BasicClass|
                basic_mid(c) == mid && basic_margs(c) == args_model(args.0@) ==> (r matches Some(
                    g,
                ) && basic_margs(g) == basic_margs(c)),
    {
        let mut v = args.0;
        match mid {
            10 => {
                if v.len() != 3 {
                    proof {
                        assert forall|c: BasicClass|
                            !(basic_mid(c) == mid && basic_margs(c) == args_model(
                                args.0@,
                            )) by {
                            if basic_mid(c) == mid && basic_margs(c) == args_model(args.0@) {
                                lemma_args_model_index(args.0@);
                                assert(forall|i: int| 0 <= i < args.0@.len()
                                    ==> #[trigger] basic_margs(c)[i] == arg_model(args.0@[i]));
                                assert(false);
                            }
                        }
                    }
                    return None;
                }
                let e2 = match take_bits(&mut v) {
                    None => {
                        proof {
                            assert(v@.last() == args.0@[v@.len() - 1]);
                            assert forall|c: BasicClass|
                                !(basic_mid(c) == mid && basic_margs(c) == args_model(
                                    args.0@,
                                )) by {
                                if basic_mid(c) == mid && basic_margs(c) == args_model(args.0@) {
                                    lemma_args_model_index(args.0@);
                                    assert(args_model(args.0@)[v@.len() - 1] == arg_model(
                                        args.0@[v@.len() - 1],
                                    ));
                                    assert(false);
                                }
                            }
                        }
                        return None;
                    },
                    Some(x) => x,
                };
                let e1 = match take_short(&mut v) {
                    None => {
                        proof {
                            assert(v@.last() == args.0@[v@.len() - 1]);
                            assert forall|c: BasicClass|
                                !(basic_mid(c) == mid && basic_margs(c) == args_model(
                                    args.0@,
                                )) by {
                                if basic_mid(c) == mid && basic_margs(c) == args_model(args.0@) {
                                    lemma_args_model_index(args.0@);
                                    assert(args_model(args.0@)[v@.len() - 1] == arg_model(
                                        args.0@[v@.len() - 1],
                                    ));
                                    assert(false);
                                }
                            }
                        }
                        return None;
                    },
                    Some(x) => x,
                };
                let e0 = match take_long(&mut v) {
                    None => {
                        proof {
                            assert(v@.last() == args.0@[v@.len() - 1]);
                            assert forall|c: BasicClass|
                                !(basic_mid(c) == mid && basic_margs(c) == args_model(
                                    args.0@,
                                )) by {
                                if basic_mid(c) == mid && basic_margs(c) == args_model(args.0@) {
                                    lemma_args_model_index(args.0@);
                                    assert(args_model(args.0@)[v@.len() - 1] == arg_model(
                                        args.0@[v@.len() - 1],
                                    ));
                                    assert(false);
                                }
                            }
                        }
                        return None;
                    },
                    Some(x) => x,
                };
                let g = BasicClass::Qos(QosMethod {
                    prefetch_size: e0,
                    prefetch_count: e1,
                    global_: unpack_bit(e2, 0),
                });
                proof {
                    assert forall|c: BasicClass|
                        basic_mid(c) == mid && basic_margs(c) == args_model(
                            args.0@,
                        ) implies basic_margs(g) == basic_margs(c) by {
                        if let BasicClass::Qos(a) = c {
                            lemma_args_model_index(args.0@);
                            assert(forall|i: int| 0 <= i < args.0@.len()
                                ==> #[trigger] basic_margs(c)[i] == arg_model(args.0@[i]));
                            lemma_bit_packing(a.global_, false, false, false, false);
                            assert(basic_margs(g) =~= basic_margs(c));
                        }
                    }
                }
                Some(g)
            },
            11 => {
                if v.len() != 0 {
                    proof {
                        assert forall|c: BasicClass|
                            !(basic_mid(c) == mid && basic_margs(c) == args_model(
                                args.0@,
                            )) by {
                            if basic_mid(c) == mid && basic_margs(c) == args_model(args.0@) {
                                lemma_args_model_index(args.0@);
                                assert(forall|i: int| 0 <= i < args.0@.len()
                                    ==> #[trigger] basic_margs(c)[i] == arg_model(args.0@[i]));
                                assert(false);
                            }
                        }
                    }
                    return None;
                }
                let g = BasicClass::QosOk;
                proof {
                    assert(basic_margs(g) =~= args_model(args.0@));
                }
                Some(g)
            },
            20 => {
                if v.len() != 5 {
                    proof {
                        assert forall|c: BasicClass|
                            !(basic_mid(c) == mid && basic_margs(c) == args_model(
                                args.0@,
                            )) by {
                            if basic_mid(c) == mid && basic_margs(c) == args_model(args.0@) {
                                lemma_args_model_index(args.0@);
                                assert(forall|i: int| 0 <= i < args.0@.len()
                                    ==> #[trigger] basic_margs(c)[i] == arg_model(args.0@[i]));
                                assert(false);
                            }
                        }
                    }
                    return None;
                }
                let e4 = match take_table(&mut v) {
                    None => {
                        proof {
                            assert(v@.last() == args.0@[v@.len() - 1]);
                            assert forall|c: BasicClass|
                                !(basic_mid(c) == mid && basic_margs(c) == args_model(
                                    args.0@,
                                )) by {
                                if basic_mid(c) == mid && basic_margs(c) == args_model(args.0@) {
                                    lemma_args_model_index(args.0@);
                                    assert(args_model(args.0@)[v@.len() - 1] == arg_model(
                                        args.0@[v@.len() - 1],
                                    ));
                                    assert(false);
                                }
                            }
                        }
                        return None;
                    },
                    Some(x) => x,
                };
                let e3 = match take_bits(&mut v) {
                    None => {
                        proof {
                            assert(v@.last() == args.0@[v@.len() - 1]);
                            assert forall|c: BasicClass|
                                !(basic_mid(c) == mid && basic_margs(c) == args_model(
                                    args.0@,
                                )) by {
                                if basic_mid(c) == mid && basic_margs(c) == args_model(args.0@) {
                                    lemma_args_model_index(args.0@);
                                    assert(args_model(args.0@)[v@.len() - 1] == arg_model(
                                        args.0@[v@.len() - 1],
                                    ));
                                    assert(false);
                                }
                            }
                        }
                        return None;
                    },
                    Some(x) => x,
                };
                let e2 = match take_short_string(&mut v) {
                    None => {
                        proof {
                            assert(v@.last() == args.0@[v@.len() - 1]);
                            assert forall|c: BasicClass|
                                !(basic_mid(c) == mid && basic_margs(c) == args_model(
                                    args.0@,
                                )) by {
                                if basic_mid(c) == mid && basic_margs(c) == args_model(args.0@) {
                                    lemma_args_model_index(args.0@);
                                    assert(args_model(args.0@)[v@.len() - 1] == arg_model(
                                        args.0@[v@.len() - 1],
                                    ));
                                    assert(false);
                                }
                            }
                        }
                        return None;
                    },
                    Some(x) => x,
                };
                let e1 = match take_short_string(&mut v) {
                    None => {
                        proof {
                            assert(v@.last() == args.0@[v@.len() - 1]);
                            assert forall|c: BasicClass|
                                !(basic_mid(c) == mid && basic_margs(c) == args_model(
                                    args.0@,
                                )) by {
                                if basic_mid(c) == mid && basic_margs(c) == args_model(args.0@) {
                                    lemma_args_model_index(args.0@);
                                    assert(args_model(args.0@)[v@.len() - 1] == arg_model(
                                        args.0@[v@.len() - 1],
                                    ));
                                    assert(false);
                                }
                            }
                        }
                        return None;
                    },
                    Some(x) => x,
                };
                let e0 = match take_short(&mut v) {
                    None => {
                        proof {
                            assert(v@.last() == args.0@[v@.len() - 1]);
                            assert forall|c: BasicClass|
                                !(basic_mid(c) == mid && basic_margs(c) == args_model(
                                    args.0@,
                                )) by {
                                if basic_mid(c) == mid && basic_margs(c) == args_model(args.0@) {
                                    lemma_args_model_index(args.0@);
                                    assert(args_model(args.0@)[v@.len() - 1] == arg_model(
                                        args.0@[v@.len() - 1],
                                    ));
                                    assert(false);
                                }
                            }
                        }
                        return None;
                    },
                    Some(x) => x,
                };
                let g = BasicClass::Consume(ConsumeMethod {
                    reserved1: e0,
                    queue: e1,
                    consumer_tag: e2,
                    no_local: unpack_bit(e3, 0),
                    no_ack: unpack_bit(e3, 1),
                    exclusive: unpack_bit(e3, 2),
                    no_wait: unpack_bit(e3, 3),
                    arguments: e4,
                });
                proof {
                    assert forall|c: BasicClass|
                        basic_mid(c) == mid && basic_margs(c) == args_model(
                            args.0@,
                        ) implies basic_margs(g) == basic_margs(c) by {
                        if let BasicClass::Consume(a) = c {
                            lemma_args_model_index(args.0@);
                            assert(forall|i: int| 0 <= i < args.0@.len()
                                ==> #[trigger] basic_margs(c)[i] == arg_model(args.0@[i]));
                            lemma_bit_packing(a.no_local, a.no_ack, a.exclusive, a.no_wait, false);
                            assert(basic_margs(g) =~= basic_margs(c));
                        }
                    }
                }
                Some(g)
            },
            21 => {
                if v.len() != 1 {
                    proof {
                        assert forall|c: BasicClass|
                            !(basic_mid(c) == mid && basic_margs(c) == args_model(
                                args.0@,
                            )) by {
                            if basic_mid(c) == mid && basic_margs(c) == args_model(args.0@) {
                                lemma_args_model_index(args.0@);
                                assert(forall|i: int| 0 <= i < args.0@.len()
                                    ==> #[trigger] basic_margs(c)[i] == arg_model(args.0@[i]));
                                assert(false);
                            }
                        }
                    }
                    return None;
                }
                let e0 = match take_short_string(&mut v) {
                    None => {
                        proof {
                            assert(v@.last() == args.0@[v@.len() - 1]);
                            assert forall|c: BasicClass|
                                !(basic_mid(c) == mid && basic_margs(c) == args_model(
                                    args.0@,
                                )) by {
                                if basic_mid(c) == mid && basic_margs(c) == args_model(args.0@) {
                                    lemma_args_model_index(args.0@);
                                    assert(args_model(args.0@)[v@.len() - 1] == arg_model(
                                        args.0@[v@.len() - 1],
                                    ));
                                    assert(false);
                                }
                            }
                        }
                        return None;
                    },
                    Some(x) => x,
                };
                let g = BasicClass::ConsumeOk(ConsumeOkMethod {
                    consumer_tag: e0,
                });
                proof {
                    assert(basic_margs(g) =~= args_model(args.0@));
                }
                Some(g)
            },
            30 => {
                if v.len() != 2 {
                    proof {
                        assert forall|c: BasicClass|
                            !(basic_mid(c) == mid && basic_margs(c) == args_model(
                                args.0@,
                            )) by {
                            if basic_mid(c) == mid && basic_margs(c) == args_model(args.0@) {
                                lemma_args_model_index(args.0@);
                                assert(forall|i: int| 0 <= i < args.0@.len()
                                    ==> #[trigger] basic_margs(c)[i] == arg_model(args.0@[i]));
                                assert(false);
                            }
                        }
                    }
                    return None;
                }
                let e1 = match take_bits(&mut v) {
                    None => {
                        proof {
                            assert(v@.last() == args.0@[v@.len() - 1]);
                            assert forall|c: BasicClass|
                                !(basic_mid(c) == mid && basic_margs(c) == args_model(
                                    args.0@,
                                )) by {
                                if basic_mid(c) == mid && basic_margs(c) == args_model(args.0@) {
                                    lemma_args_model_index(args.0@);
                                    assert(args_model(args.0@)[v@.len() - 1] == arg_model(
                                        args.0@[v@.len() - 1],
                                    ));
                                    assert(false);
                                }
                            }
                        }
                        return None;
                    },
                    Some(x) => x,
                };
                let e0 = match take_short_string(&mut v) {
                    None => {
                        proof {
                            assert(v@.last() == args.0@[v@.len() - 1]);
                            assert forall|c: BasicClass|
                                !(basic_mid(c) == mid && basic_margs(c) == args_model(
                                    args.0@,
                                )) by {
                                if basic_mid(c) == mid && basic_margs(c) == args_model(args.0@) {
                                    lemma_args_model_index(args.0@);
                                    assert(args_model(args.0@)[v@.len() - 1] == arg_model(
                                        args.0@[v@.len() - 1],
                                    ));
                                    assert(false);
                                }
                            }
                        }
                        return None;
                    },
                    Some(x) => x,
                };
                let g = BasicClass::Cancel(CancelMethod {
                    consumer_tag: e0,
                    no_wait: unpack_bit(e1, 0),
                });
                proof {
                    assert forall|c: BasicClass|
                        basic_mid(c) == mid && basic_margs(c) == args_model(
                            args.0@,
                        ) implies basic_margs(g) == basic_margs(c) by {
                        if let BasicClass::Cancel(a) = c {
                            lemma_args_model_index(args.0@);
                            assert(forall|i: int| 0 <= i < args.0@.len()
                                ==> #[trigger] basic_margs(c)[i] == arg_model(args.0@[i]));
                            lemma_bit_packing(a.no_wait, false, false, false, false);
                            assert(basic_margs(g) =~= basic_margs(c));
                        }
                    }
                }
                Some(g)
            },
            31 => {
                if v.len() != 1 {
                    proof {
                        assert forall|c: BasicClass|
                            !(basic_mid(c) == mid && basic_margs(c) == args_model(
                                args.0@,
                            )) by {
                            if basic_mid(c) == mid && basic_margs(c) == args_model(args.0@) {
                                lemma_args_model_index(args.0@);
                                assert(forall|i: int| 0 <= i < args.0@.len()
                                    ==> #[trigger] basic_margs(c)[i] == arg_model(args.0@[i]));
                                assert(false);
                            }
                        }
                    }
                    return None;
                }
                let e0 = match take_short_string(&mut v) {
                    None => {
                        proof {
                            assert(v@.last() == args.0@[v@.len() - 1]);
                            assert forall|c: BasicClass|
                                !(basic_mid(c) == mid && basic_margs(c) == args_model(
                                    args.0@,
                                )) by {
                                if basic_mid(c) == mid && basic_margs(c) == args_model(args.0@) {
                                    lemma_args_model_index(args.0@);
                                    assert(args_model(args.0@)[v@.len() - 1] == arg_model(
                                        args.0@[v@.len() - 1],
                                    ));
                                    assert(false);
                                }
                            }
                        }
                        return None;
                    },
                    Some(x) => x,
                };
                let g = BasicClass::CancelOk(CancelOkMethod {
                    consumer_tag: e0,
                });
                proof {
                    assert(basic_margs(g) =~= args_model(args.0@));
                }
                Some(g)
            },
            40 => {
                if v.len() != 4 {
                    proof {
                        assert forall|c: BasicClass|
                            !(basic_mid(c) == mid && basic_margs(c) == args_model(
                                args.0@,
                            )) by {
                            if basic_mid(c) == mid && basic_margs(c) == args_model(args.0@) {
                                lemma_args_model_index(args.0@);
                                assert(forall|i: int| 0 <= i < args.0@.len()
                                    ==> #[trigger] basic_margs(c)[i] == arg_model(args.0@[i]));
                                assert(false);
                            }
                        }
                    }
                    return None;
                }
                let e3 = match take_bits(&mut v) {
                    None => {
                        proof {
                            assert(v@.last() == args.0@[v@.len() - 1]);
                            assert forall|c: BasicClass|
                                !(basic_mid(c) == mid && basic_margs(c) == args_model(
                                    args.0@,
                                )) by {
                                if basic_mid(c) == mid && basic_margs(c) == args_model(args.0@) {
                                    lemma_args_model_index(args.0@);
                                    assert(args_model(args.0@)[v@.len() - 1] == arg_model(
                                        args.0@[v@.len() - 1],
                                    ));
                                    assert(false);
                                }
                            }
                        }
                        return None;
                    },
                    Some(x) => x,
                };
                let e2 = match take_short_string(&mut v) {
                    None => {
                        proof {
                            assert(v@.last() == args.0@[v@.len() - 1]);
                            assert forall|c: BasicClass|
                                !(basic_mid(c) == mid && basic_margs(c) == args_model(
                                    args.0@,
                                )) by {
                                if basic_mid(c) == mid && basic_margs(c) == args_model(args.0@) {
                                    lemma_args_model_index(args.0@);
                                    assert(args_model(args.0@)[v@.len() - 1] == arg_model(
                                        args.0@[v@.len() - 1],
                                    ));
                                    assert(false);
                                }
                            }
                        }
                        return None;
                    },
                    Some(x) => x,
                };
                let e1 = match take_short_string(&mut v) {
                    None => {
                        proof {
                            assert(v@.last() == args.0@[v@.len() - 1]);
                            assert forall|c: BasicClass|
                                !(basic_mid(c) == mid && basic_margs(c) == args_model(
                                    args.0@,
                                )) by {
                                if basic_mid(c) == mid && basic_margs(c) == args_model(args.0@) {
                                    lemma_args_model_index(args.0@);
                                    assert(args_model(args.0@)[v@.len() - 1] == arg_model(
                                        args.0@[v@.len() - 1],
                                    ));
                                    assert(false);
                                }
                            }
                        }
                        return None;
                    },
                    Some(x) => x,
                };
                let e0 = match take_short(&mut v) {
                    None => {
                        proof {
                            assert(v@.last() == args.0@[v@.len() - 1]);
                            assert forall|c: BasicClass|
                                !(basic_mid(c) == mid && basic_margs(c) == args_model(
                                    args.0@,
                                )) by {
                                if basic_mid(c) == mid && basic_margs(c) == args_model(args.0@) {
                                    lemma_args_model_index(args.0@);
                                    assert(args_model(args.0@)[v@.len() - 1] == arg_model(
                                        args.0@[v@.len() - 1],
                                    ));
                                    assert(false);
                                }
                            }
                        }
                        return None;
                    },
                    Some(x) => x,
                };
                let g = BasicClass::Publish(PublishMethod {
                    reserved1: e0,
                    exchange: e1,
                    routing_key: e2,
                    mandatory: unpack_bit(e3, 0),
                    immediate: unpack_bit(e3, 1),
                });
                proof {
                    assert forall|c: BasicClass|
                        basic_mid(c) == mid && basic_margs(c) == args_model(
                            args.0@,
                        ) implies basic_margs(g) == basic_margs(c) by {
                        if let BasicClass::Publish(a) = c {
                            lemma_args_model_index(args.0@);
                            assert(forall|i: int| 0 <= i < args.0@.len()
                                ==> #[trigger] basic_margs(c)[i] == arg_model(args.0@[i]));
                            lemma_bit_packing(a.mandatory, a.immediate, false, false, false);
                            assert(basic_margs(g) =~= basic_margs(c));
                        }
                    }
                }
                Some(g)
            },
            50 => {
                if v.len() != 4 {
                    proof {
                        assert forall|c: BasicClass|
                            !(basic_mid(c) == mid && basic_margs(c) == args_model(
                                args.0@,
                            )) by {
                            if basic_mid(c) == mid && basic_margs(c) == args_model(args.0@) {
                                lemma_args_model_index(args.0@);
                                assert(forall|i: int| 0 <= i < args.0@.len()
                                    ==> #[trigger] basic_margs(c)[i] == arg_model(args.0@[i]));
                                assert(false);
                            }
                        }
                    }
                    return None;
                }
                let e3 = match take_short_string(&mut v) {
                    None => {
                        proof {
                            assert(v@.last() == args.0@[v@.len() - 1]);
                            assert forall|c: BasicClass|
                                !(basic_mid(c) == mid && basic_margs(c) == args_model(
                                    args.0@,
                                )) by {
                                if basic_mid(c) == mid && basic_margs(c) == args_model(args.0@) {
                                    lemma_args_model_index(args.0@);
                                    assert(args_model(args.0@)[v@.len() - 1] == arg_model(
                                        args.0@[v@.len() - 1],
                                    ));
                                    assert(false);
                                }
                            }
                        }
                        return None;
                    },
                    Some(x) => x,
                };
                let e2 = match take_short_string(&mut v) {
                    None => {
                        proof {
                            assert(v@.last() == args.0@[v@.len() - 1]);
                            assert forall|c: BasicClass|
                                !(basic_mid(c) == mid && basic_margs(c) == args_model(
                                    args.0@,
                                )) by {
                                if basic_mid(c) == mid && basic_margs(c) == args_model(args.0@) {
                                    lemma_args_model_index(args.0@);
                                    assert(args_model(args.0@)[v@.len() - 1] == arg_model(
                                        args.0@[v@.len() - 1],
                                    ));
                                    assert(false);
                                }
                            }
                        }
                        return None;
                    },
                    Some(x) => x,
                };
                let e1 = match take_short_string(&mut v) {
                    None => {
                        proof {
                            assert(v@.last() == args.0@[v@.len() - 1]);
                            assert forall|c: BasicClass|
                                !(basic_mid(c) == mid && basic_margs(c) == args_model(
                                    args.0@,
                                )) by {
                                if basic_mid(c) == mid && basic_margs(c) == args_model(args.0@) {
                                    lemma_args_model_index(args.0@);
                                    assert(args_model(args.0@)[v@.len() - 1] == arg_model(
                                        args.0@[v@.len() - 1],
                                    ));
                                    assert(false);
                                }
                            }
                        }
                        return None;
                    },
                    Some(x) => x,
                };
                let e0 = match take_short(&mut v) {
                    None => {
                        proof {
                            assert(v@.last() == args.0@[v@.len() - 1]);
                            assert forall|c: BasicClass|
                                !(basic_mid(c) == mid && basic_margs(c) == args_model(
                                    args.0@,
                                )) by {
                                if basic_mid(c) == mid && basic_margs(c) == args_model(args.0@) {
                                    lemma_args_model_index(args.0@);
                                    assert(args_model(args.0@)[v@.len() - 1] == arg_model(
                                        args.0@[v@.len() - 1],
                                    ));
                                    assert(false);
                                }
                            }
                        }
                        return None;
                    },
                    Some(x) => x,
                };
                let g = BasicClass::Return(ReturnMethod {
                    reply_code: e0,
                    reply_text: e1,
                    exchange: e2,
                    routing_key: e3,
                });
                proof {
                    assert(basic_margs(g) =~= args_model(args.0@));
                }
                Some(g)
            },
            60 => {
                if v.len() != 5 {
                    proof {
                        assert forall|c: BasicClass|
                            !(basic_mid(c) == mid && basic_margs(c) == args_model(
                                args.0@,
                            )) by {
                            if basic_mid(c) == mid && basic_margs(c) == args_model(args.0@) {
                                lemma_args_model_index(args.0@);
                                assert(forall|i: int| 0 <= i < args.0@.len()
                                    ==> #[trigger] basic_margs(c)[i] == arg_model(args.0@[i]));
                                assert(false);
                            }
                        }
                    }
                    return None;
                }
                let e4 = match take_short_string(&mut v) {
                    None => {
                        proof {
                            assert(v@.last() == args.0@[v@.len() - 1]);
                            assert forall|c: BasicClass|
                                !(basic_mid(c) == mid && basic_margs(c) == args_model(
                                    args.0@,
                                )) by {
                                if basic_mid(c) == mid && basic_margs(c) == args_model(args.0@) {
                                    lemma_args_model_index(args.0@);
                                    assert(args_model(args.0@)[v@.len() - 1] == arg_model(
                                        args.0@[v@.len() - 1],
                                    ));
                                    assert(false);
                                }
                            }
                        }
                        return None;
                    },
                    Some(x) => x,
                };
                let e3 = match take_short_string(&mut v) {
                    None => {
                        proof {
                            assert(v@.last() == args.0@[v@.len() - 1]);
                            assert forall|c: BasicClass|
                                !(basic_mid(c) == mid && basic_margs(c) == args_model(
                                    args.0@,
                                )) by {
                                if basic_mid(c) == mid && basic_margs(c) == args_model(args.0@) {
                                    lemma_args_model_index(args.0@);
                                    assert(args_model(args.0@)[v@.len() - 1] == arg_model(
                                        args.0@[v@.len() - 1],
                                    ));
                                    assert(false);
                                }
                            }
                        }
                        return None;
                    },
                    Some(x) => x,
                };
                let e2 = match take_bits(&mut v) {
                    None => {
                        proof {
                            assert(v@.last() == args.0@[v@.len() - 1]);
                            assert forall|c: BasicClass|
                                !(basic_mid(c) == mid && basic_margs(c) == args_model(
                                    args.0@,
                                )) by {
                                if basic_mid(c) == mid && basic_margs(c) == args_model(args.0@) {
                                    lemma_args_model_index(args.0@);
                                    assert(args_model(args.0@)[v@.len() - 1] == arg_model(
                                        args.0@[v@.len() - 1],
                                    ));
                                    assert(false);
                                }
                            }
                        }
                        return None;
                    },
                    Some(x) => x,
                };
                let e1 = match take_longlong(&mut v) {
                    None => {
                        proof {
                            assert(v@.last() == args.0@[v@.len() - 1]);
                            assert forall|c: BasicClass|
                                !(basic_mid(c) == mid && basic_margs(c) == args_model(
                                    args.0@,
                                )) by {
                                if basic_mid(c) == mid && basic_margs(c) == args_model(args.0@) {
                                    lemma_args_model_index(args.0@);
                                    assert(args_model(args.0@)[v@.len() - 1] == arg_model(
                                        args.0@[v@.len() - 1],
                                    ));
                                    assert(false);
                                }
                            }
                        }
                        return None;
                    },
                    Some(x) => x,
                };
                let e0 = match take_short_string(&mut v) {
                    None => {
                        proof {
                            assert(v@.last() == args.0@[v@.len() - 1]);
                            assert forall|c: BasicClass|
                                !(basic_mid(c) == mid && basic_margs(c) == args_model(
                                    args.0@,
                                )) by {
                                if basic_mid(c) == mid && basic_margs(c) == args_model(args.0@) {
                                    lemma_args_model_index(args.0@);
                                    assert(args_model(args.0@)[v@.len() - 1] == arg_model(
                                        args.0@[v@.len() - 1],
                                    ));
                                    assert(false);
                                }
                            }
                        }
                        return None;
                    },
                    Some(x) => x,
                };
                let g = BasicClass::Deliver(DeliverMethod {
                    consumer_tag: e0,
                    delivery_tag: e1,
                    redeliverd: unpack_bit(e2, 0),
                    exchange: e3,
                    routing_key: e4,
                });
                proof {
                    assert forall|c: BasicClass|
                        basic_mid(c) == mid && basic_margs(c) == args_model(
                            args.0@,
                        ) implies basic_margs(g) == basic_margs(c) by {
                        if let BasicClass::Deliver(a) = c {
                            lemma_args_model_index(args.0@);
                            assert(forall|i: int| 0 <= i < args.0@.len()
                                ==> #[trigger] basic_margs(c)[i] == arg_model(args.0@[i]));
                            lemma_bit_packing(a.redeliverd, false, false, false, false);
                            assert(basic_margs(g) =~= basic_margs(c));
                        }
                    }
                }
                Some(g)
            },
            70 => {
                if v.len() != 3 {
                    proof {
                        assert forall|c: BasicClass|
                            !(basic_mid(c) == mid && basic_margs(c) == args_model(
                                args.0@,
                            )) by {
                            if basic_mid(c) == mid && basic_margs(c) == args_model(args.0@) {
                                lemma_args_model_index(args.0@);
                                assert(forall|i: int| 0 <= i < args.0@.len()
                                    ==> #[trigger] basic_margs(c)[i] == arg_model(args.0@[i]));
                                assert(false);
                            }
                        }
                    }
                    return None;
                }
                let e2 = match take_bits(&mut v) {
                    None => {
                        proof {
                            assert(v@.last() == args.0@[v@.len() - 1]);
                            assert forall|c: BasicClass|
                                !(basic_mid(c) == mid && basic_margs(c) == args_model(
                                    args.0@,
                                )) by {
                                if basic_mid(c) == mid && basic_margs(c) == args_model(args.0@) {
                                    lemma_args_model_index(args.0@);
                                    assert(args_model(args.0@)[v@.len() - 1] == arg_model(
                                        args.0@[v@.len() - 1],
                                    ));
                                    assert(false);
                                }
                            }
                        }
                        return None;
                    },
                    Some(x) => x,
                };
                let e1 = match take_short_string(&mut v) {
                    None => {
                        proof {
                            assert(v@.last() == args.0@[v@.len() - 1]);
                            assert forall|c: BasicClass|
                                !(basic_mid(c) == mid && basic_margs(c) == args_model(
                                    args.0@,
                                )) by {
                                if basic_mid(c) == mid && basic_margs(c) == args_model(args.0@) {
                                    lemma_args_model_index(args.0@);
                                    assert(args_model(args.0@)[v@.len() - 1] == arg_model(
                                        args.0@[v@.len() - 1],
                                    ));
                                    assert(false);
                                }
                            }
                        }
                        return None;
                    },
                    Some(x) => x,
                };
                let e0 = match take_short(&mut v) {
                    None => {
                        proof {
                            assert(v@.last() == args.0@[v@.len() - 1]);
                            assert forall|c: BasicClass|
                                !(basic_mid(c) == mid && basic_margs(c) == args_model(
                                    args.0@,
                                )) by {
                                if basic_mid(c) == mid && basic_margs(c) == args_model(args.0@) {
                                    lemma_args_model_index(args.0@);
                                    assert(args_model(args.0@)[v@.len() - 1] == arg_model(
                                        args.0@[v@.len() - 1],
                                    ));
                                    assert(false);
                                }
                            }
                        }
                        return None;
                    },
                    Some(x) => x,
                };
                let g = BasicClass::Get(GetMethod {
                    reserved1: e0,
                    queue: e1,
                    no_ack: unpack_bit(e2, 0),
                });
                proof {
                    assert forall|c: BasicClass|
                        basic_mid(c) == mid && basic_margs(c) == args_model(
                            args.0@,
                        ) implies basic_margs(g) == basic_margs(c) by {
                        if let BasicClass::Get(a) = c {
                            lemma_args_model_index(args.0@);
                            assert(forall|i: int| 0 <= i < args.0@.len()
                                ==> #[trigger] basic_margs(c)[i] == arg_model(args.0@[i]));
                            lemma_bit_packing(a.no_ack, false, false, false, false);
                            assert(basic_margs(g) =~= basic_margs(c));
                        }
                    }
                }
                Some(g)
            },
            71 => {
                if v.len() != 5 {
                    proof {
                        assert forall|c: BasicClass|
                            !(basic_mid(c) == mid && basic_margs(c) == args_model(
                                args.0@,
                            )) by {
                            if basic_mid(c) == mid && basic_margs(c) == args_model(args.0@) {
                                lemma_args_model_index(args.0@);
                                assert(forall|i: int| 0 <= i < args.0@.len()
                                    ==> #[trigger] basic_margs(c)[i] == arg_model(args.0@[i]));
                                assert(false);
                            }
                        }
                    }
                    return None;
                }
                let e4 = match take_long(&mut v) {
                    None => {
                        proof {
                            assert(v@.last() == args.0@[v@.len() - 1]);
                            assert forall|c: BasicClass|
                                !(basic_mid(c) == mid && basic_margs(c) == args_model(
                                    args.0@,
                                )) by {
                                if basic_mid(c) == mid && basic_margs(c) == args_model(args.0@) {
                                    lemma_args_model_index(args.0@);
                                    assert(args_model(args.0@)[v@.len() - 1] == arg_model(
                                        args.0@[v@.len() - 1],
                                    ));
                                    assert(false);
                                }
                            }
                        }
                        return None;
                    },
                    Some(x) => x,
                };
                let e3 = match take_short_string(&mut v) {
                    None => {
                        proof {
                            assert(v@.last() == args.0@[v@.len() - 1]);
                            assert forall|c: BasicClass|
                                !(basic_mid(c) == mid && basic_margs(c) == args_model(
                                    args.0@,
                                )) by {
                                if basic_mid(c) == mid && basic_margs(c) == args_model(args.0@) {
                                    lemma_args_model_index(args.0@);
                                    assert(args_model(args.0@)[v@.len() - 1] == arg_model(
                                        args.0@[v@.len() - 1],
                                    ));
                                    assert(false);
                                }
                            }
                        }
                        return None;
                    },
                    Some(x) => x,
                };
                let e2 = match take_short_string(&mut v) {
                    None => {
                        proof {
                            assert(v@.last() == args.0@[v@.len() - 1]);
                            assert forall|c: BasicClass|
                                !(basic_mid(c) == mid && basic_margs(c) == args_model(
                                    args.0@,
                                )) by {
                                if basic_mid(c) == mid && basic_margs(c) == args_model(args.0@) {
                                    lemma_args_model_index(args.0@);
                                    assert(args_model(args.0@)[v@.len() - 1] == arg_model(
                                        args.0@[v@.len() - 1],
                                    ));
                                    assert(false);
                                }
                            }
                        }
                        return None;
                    },
                    Some(x) => x,
                };
                let e1 = match take_bits(&mut v) {
                    None => {
                        proof {
                            assert(v@.last() == args.0@[v@.len() - 1]);
                            assert forall|c: BasicClass|
                                !(basic_mid(c) == mid && basic_margs(c) == args_model(
                                    args.0@,
                                )) by {
                                if basic_mid(c) == mid && basic_margs(c) == args_model(args.0@) {
                                    lemma_args_model_index(args.0@);
                                    assert(args_model(args.0@)[v@.len() - 1] == arg_model(
                                        args.0@[v@.len() - 1],
                                    ));
                                    assert(false);
                                }
                            }
                        }
                        return None;
                    },
                    Some(x) => x,
                };
                let e0 = match take_longlong(&mut v) {
                    None => {
                        proof {
                            assert(v@.last() == args.0@[v@.len() - 1]);
                            assert forall|c: BasicClass|
                                !(basic_mid(c) == mid && basic_margs(c) == args_model(
                                    args.0@,
                                )) by {
                                if basic_mid(c) == mid && basic_margs(c) == args_model(args.0@) {
                                    lemma_args_model_index(args.0@);
                                    assert(args_model(args.0@)[v@.len() - 1] == arg_model(
                                        args.0@[v@.len() - 1],
                                    ));
                                    assert(false);
                                }
                            }
                        }
                        return None;
                    },
                    Some(x) => x,
                };
                let g = BasicClass::GetOk(GetOkMethod {
                    delivery_tag: e0,
                    redeliverd: unpack_bit(e1, 0),
                    exchange: e2,
                    routing_key: e3,
                    message_count: e4,
                });
                proof {
                    assert forall|c: BasicClass|
                        basic_mid(c) == mid && basic_margs(c) == args_model(
                            args.0@,
                        ) implies basic_margs(g) == basic_margs(c) by {
                        if let BasicClass::GetOk(a) = c {
                            lemma_args_model_index(args.0@);
                            assert(forall|i: int| 0 <= i < args.0@.len()
                                ==> #[trigger] basic_margs(c)[i] == arg_model(args.0@[i]));
                            lemma_bit_packing(a.redeliverd, false, false, false, false);
                            assert(basic_margs(g) =~= basic_margs(c));
                        }
                    }
                }
                Some(g)
            },
            72 => {
                if v.len() != 1 {
                    proof {
                        assert forall|c: BasicClass|
                            !(basic_mid(c) == mid && basic_margs(c) == args_model(
                                args.0@,
                            )) by {
                            if basic_mid(c) == mid && basic_margs(c) == args_model(args.0@) {
                                lemma_args_model_index(args.0@);
                                assert(forall|i: int| 0 <= i < args.0@.len()
                                    ==> #[trigger] basic_margs(c)[i] == arg_model(args.0@[i]));
                                assert(false);
                            }
                        }
                    }
                    return None;
                }
                let e0 = match take_short_string(&mut v) {
                    None => {
                        proof {
                            assert(v@.last() == args.0@[v@.len() - 1]);
                            assert forall|c: BasicClass|
                                !(basic_mid(c) == mid && basic_margs(c) == args_model(
                                    args.0@,
                                )) by {
                                if basic_mid(c) == mid && basic_margs(c) == args_model(args.0@) {
                                    lemma_args_model_index(args.0@);
                                    assert(args_model(args.0@)[v@.len() - 1] == arg_model(
                                        args.0@[v@.len() - 1],
                                    ));
                                    assert(false);
                                }
                            }
                        }
                        return None;
                    },
                    Some(x) => x,
                };
                let g = BasicClass::GetEmpty(GetEmptyMethod {
                    reserved1: e0,
                });
                proof {
                    assert(basic_margs(g) =~= args_model(args.0@));
                }
                Some(g)
            },
            80 => {
                if v.len() != 2 {
                    proof {
                        assert forall|c: BasicClass|
                            !(basic_mid(c) == mid && basic_margs(c) == args_model(
                                args.0@,
                            )) by {
                            if basic_mid(c) == mid && basic_margs(c) == args_model(args.0@) {
                                lemma_args_model_index(args.0@);
                                assert(forall|i: int| 0 <= i < args.0@.len()
                                    ==> #[trigger] basic_margs(c)[i] == arg_model(args.0@[i]));
                                assert(false);
                            }
                        }
                    }
                    return None;
                }
                let e1 = match take_bits(&mut v) {
                    None => {
                        proof {
                            assert(v@.last() == args.0@[v@.len() - 1]);
                            assert forall|c: BasicClass|
                                !(basic_mid(c) == mid && basic_margs(c) == args_model(
                                    args.0@,
                                )) by {
                                if basic_mid(c) == mid && basic_margs(c) == args_model(args.0@) {
                                    lemma_args_model_index(args.0@);
                                    assert(args_model(args.0@)[v@.len() - 1] == arg_model(
                                        args.0@[v@.len() - 1],
                                    ));
                                    assert(false);
                                }
                            }
                        }
                        return None;
                    },
                    Some(x) => x,
                };
                let e0 = match take_longlong(&mut v) {
                    None => {
                        proof {
                            assert(v@.last() == args.0@[v@.len() - 1]);
                            assert forall|c: BasicClass|
                                !(basic_mid(c) == mid && basic_margs(c) == args_model(
                                    args.0@,
                                )) by {
                                if basic_mid(c) == mid && basic_margs(c) == args_model(args.0@) {
                                    lemma_args_model_index(args.0@);
                                    assert(args_model(args.0@)[v@.len() - 1] == arg_model(
                                        args.0@[v@.len() - 1],
                                    ));
                                    assert(false);
                                }
                            }
                        }
                        return None;
                    },
                    Some(x) => x,
                };
                let g = BasicClass::Ack(AckMethod {
                    delivery_tag: e0,
                    multiple: unpack_bit(e1, 0),
                });
                proof {
                    assert forall|c: BasicClass|
                        basic_mid(c) == mid && basic_margs(c) == args_model(
                            args.0@,
                        ) implies basic_margs(g) == basic_margs(c) by {
                        if let BasicClass::Ack(a) = c {
                            lemma_args_model_index(args.0@);
                            assert(forall|i: int| 0 <= i < args.0@.len()
                                ==> #[trigger] basic_margs(c)[i] == arg_model(args.0@[i]));
                            lemma_bit_packing(a.multiple, false, false, false, false);
                            assert(basic_margs(g) =~= basic_margs(c));
                        }
                    }
                }
                Some(g)
            },
            90 => {
                if v.len() != 2 {
                    proof {
                        assert forall|c: BasicClass|
                            !(basic_mid(c) == mid && basic_margs(c) == args_model(
                                args.0@,
                            )) by {
                            if basic_mid(c) == mid && basic_margs(c) == args_model(args.0@) {
                                lemma_args_model_index(args.0@);
                                assert(forall|i: int| 0 <= i < args.0@.len()
                                    ==> #[trigger] basic_margs(c)[i] == arg_model(args.0@[i]));
                                assert(false);
                            }
                        }
                    }
                    return None;
                }
                let e1 = match take_bits(&mut v) {
                    None => {
                        proof {
                            assert(v@.last() == args.0@[v@.len() - 1]);
                            assert forall|c: BasicClass|
                                !(basic_mid(c) == mid && basic_margs(c) == args_model(
                                    args.0@,
                                )) by {
                                if basic_mid(c) == mid && basic_margs(c) == args_model(args.0@) {
                                    lemma_args_model_index(args.0@);
                                    assert(args_model(args.0@)[v@.len() - 1] == arg_model(
                                        args.0@[v@.len() - 1],
                                    ));
                                    assert(false);
                                }
                            }
                        }
                        return None;
                    },
                    Some(x) => x,
                };
                let e0 = match take_longlong(&mut v) {
                    None => {
                        proof {
                            assert(v@.last() == args.0@[v@.len() - 1]);
                            assert forall|c: BasicClass|
                                !(basic_mid(c) == mid && basic_margs(c) == args_model(
                                    args.0@,
                                )) by {
                                if basic_mid(c) == mid && basic_margs(c) == args_model(args.0@) {
                                    lemma_args_model_index(args.0@);
                                    assert(args_model(args.0@)[v@.len() - 1] == arg_model(
                                        args.0@[v@.len() - 1],
                                    ));
                                    assert(false);
                                }
                            }
                        }
                        return None;
                    },
                    Some(x) => x,
                };
                let g = BasicClass::Reject(RejectMethod {
                    delivery_tag: e0,
                    requeue: unpack_bit(e1, 0),
                });
                proof {
                    assert forall|c: BasicClass|
                        basic_mid(c) == mid && basic_margs(c) == args_model(
                            args.0@,
                        ) implies basic_margs(g) == basic_margs(c) by {
                        if let BasicClass::Reject(a) = c {
                            lemma_args_model_index(args.0@);
                            assert(forall|i: int| 0 <= i < args.0@.len()
                                ==> #[trigger] basic_margs(c)[i] == arg_model(args.0@[i]));
                            lemma_bit_packing(a.requeue, false, false, false, false);
                            assert(basic_margs(g) =~= basic_margs(c));
                        }
                    }
                }
                Some(g)
            },
            100 => {
                if v.len() != 1 {
                    proof {
                        assert forall|c: BasicClass|
                            !(basic_mid(c) == mid && basic_margs(c) == args_model(
                                args.0@,
                            )) by {
                            if basic_mid(c) == mid && basic_margs(c) == args_model(args.0@) {
                                lemma_args_model_index(args.0@);
                                assert(forall|i: int| 0 <= i < args.0@.len()
                                    ==> #[trigger] basic_margs(c)[i] == arg_model(args.0@[i]));
                                assert(false);
                            }
                        }
                    }
                    return None;
                }
                let e0 = match take_bits(&mut v) {
                    None => {
                        proof {
                            assert(v@.last() == args.0@[v@.len() - 1]);
                            assert forall|c: BasicClass|
                                !(basic_mid(c) == mid && basic_margs(c) == args_model(
                                    args.0@,
                                )) by {
                                if basic_mid(c) == mid && basic_margs(c) == args_model(args.0@) {
                                    lemma_args_model_index(args.0@);
                                    assert(args_model(args.0@)[v@.len() - 1] == arg_model(
                                        args.0@[v@.len() - 1],
                                    ));
                                    assert(false);
                                }
                            }
                        }
                        return None;
                    },
                    Some(x) => x,
                };
                let g = BasicClass::RecoverAsync(RecoverAsyncMethod {
                    requeue: unpack_bit(e0, 0),
                });
                proof {
                    assert forall|c: BasicClass|
                        basic_mid(c) == mid && basic_margs(c) == args_model(
                            args.0@,
                        ) implies basic_margs(g) == basic_margs(c) by {
                        if let BasicClass::RecoverAsync(a) = c {
                            lemma_args_model_index(args.0@);
                            assert(forall|i: int| 0 <= i < args.0@.len()
                                ==> #[trigger] basic_margs(c)[i] == arg_model(args.0@[i]));
                            lemma_bit_packing(a.requeue, false, false, false, false);
                            assert(basic_margs(g) =~= basic_margs(c));
                        }
                    }
                }
                Some(g)
            },
            110 => {
                if v.len() != 1 {
                    proof {
                        assert forall|c: BasicClass|
                            !(basic_mid(c) == mid && basic_margs(c) == args_model(
                                args.0@,
                            )) by {
                            if basic_mid(c) == mid && basic_margs(c) == args_model(args.0@) {
                                lemma_args_model_index(args.0@);
                                assert(forall|i: int| 0 <= i < args.0@.len()
                                    ==> #[trigger] basic_margs(c)[i] == arg_model(args.0@[i]));
                                assert(false);
                            }
                        }
                    }
                    return None;
                }
                let e0 = match take_bits(&mut v) {
                    None => {
                        proof {
                            assert(v@.last() == args.0@[v@.len() - 1]);
                            assert forall|c: BasicClass|
                                !(basic_mid(c) == mid && basic_margs(c) == args_model(
                                    args.0@,
                                )) by {
                                if basic_mid(c) == mid && basic_margs(c) == args_model(args.0@) {
                                    lemma_args_model_index(args.0@);
                                    assert(args_model(args.0@)[v@.len() - 1] == arg_model(
                                        args.0@[v@.len() - 1],
                                    ));
                                    assert(false);
                                }
                            }
                        }
                        return None;
                    },
                    Some(x) => x,
                };
                let g = BasicClass::Recover(RecoverMethod {
                    requeue: unpack_bit(e0, 0),
                });
                proof {
                    assert forall|c: BasicClass|
                        basic_mid(c) == mid && basic_margs(c) == args_model(
                            args.0@,
                        ) implies basic_margs(g) == basic_margs(c) by {
                        if let BasicClass::Recover(a) = c {
                            lemma_args_model_index(args.0@);
                            assert(forall|i: int| 0 <= i < args.0@.len()
                                ==> #[trigger] basic_margs(c)[i] == arg_model(args.0@[i]));
                            lemma_bit_packing(a.requeue, false, false, false, false);
                            assert(basic_margs(g) =~= basic_margs(c));
                        }
                    }
                }
                Some(g)
            },
            111 => {
                if v.len() != 0 {
                    proof {
                        assert forall|c: BasicClass|
                            !(basic_mid(c) == mid && basic_margs(c) == args_model(
                                args.0@,
                            )) by {
                            if basic_mid(c) == mid && basic_margs(c) == args_model(args.0@) {
                                lemma_args_model_index(args.0@);
                                assert(forall|i: int| 0 <= i < args.0@.len()
                                    ==> #[trigger] basic_margs(c)[i] == arg_model(args.0@[i]));
                                assert(false);
                            }
                        }
                    }
                    return None;
                }
                let g = BasicClass::RecoverOk;
                proof {
                    assert(basic_margs(g) =~= args_model(args.0@));
                }
                Some(g)
            },
            120 => {
                if v.len() != 2 {
                    proof {
                        assert forall|c: BasicClass|
                            !(basic_mid(c) == mid && basic_margs(c) == args_model(
                                args.0@,
                            )) by {
                            if basic_mid(c) == mid && basic_margs(c) == args_model(args.0@) {
                                lemma_args_model_index(args.0@);
                                assert(forall|i: int| 0 <= i < args.0@.len()
                                    ==> #[trigger] basic_margs(c)[i] == arg_model(args.0@[i]));
                                assert(false);
                            }
                        }
                    }
                    return None;
                }
                let e1 = match take_bits(&mut v) {
                    None => {
                        proof {
                            assert(v@.last() == args.0@[v@.len() - 1]);
                            assert forall|c: BasicClass|
                                !(basic_mid(c) == mid && basic_margs(c) == args_model(
                                    args.0@,
                                )) by {
                                if basic_mid(c) == mid && basic_margs(c) == args_model(args.0@) {
                                    lemma_args_model_index(args.0@);
                                    assert(args_model(args.0@)[v@.len() - 1] == arg_model(
                                        args.0@[v@.len() - 1],
                                    ));
                                    assert(false);
                                }
                            }
                        }
                        return None;
                    },
                    Some(x) => x,
                };
                let e0 = match take_longlong(&mut v) {
                    None => {
                        proof {
                            assert(v@.last() == args.0@[v@.len() - 1]);
                            assert forall|c: BasicClass|
                                !(basic_mid(c) == mid && basic_margs(c) == args_model(
                                    args.0@,
                                )) by {
                                if basic_mid(c) == mid && basic_margs(c) == args_model(args.0@) {
                                    lemma_args_model_index(args.0@);
                                    assert(args_model(args.0@)[v@.len() - 1] == arg_model(
                                        args.0@[v@.len() - 1],
                                    ));
                                    assert(false);
                                }
                            }
                        }
                        return None;
                    },
                    Some(x) => x,
                };
                let g = BasicClass::Nack(NackMethod {
                    delivery_tag: e0,
                    multiple: unpack_bit(e1, 0),
                });
                proof {
                    assert forall|c: BasicClass|
                        basic_mid(c) == mid && basic_margs(c) == args_model(
                            args.0@,
                        ) implies basic_margs(g) == basic_margs(c) by {
                        if let BasicClass::Nack(a) = c {
                            lemma_args_model_index(args.0@);
                            assert(forall|i: int| 0 <= i < args.0@.len()
                                ==> #[trigger] basic_margs(c)[i] == arg_model(args.0@[i]));
                            lemma_bit_packing(a.multiple, false, false, false, false);
                            assert(basic_margs(g) =~= basic_margs(c));
                        }
                    }
                }
                Some(g)
            },
            _ => None,
        }
    }
}

} // verus!
