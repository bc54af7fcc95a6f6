//! Queue class methods (class id 50).

use vstd::prelude::*;

use crate::args::{AmqpString, FieldTable, table_model};
use crate::methods::args::{
    Argument, Arguments, ArgModel, args_model, arg_model, pack_bits1, pack_bits2,
    pack_bits3, pack_bits4, pack_bits5, pack1, pack2, pack3, pack4, pack5, unpack_bit,
    take_octet, take_short, take_long, take_longlong, take_bits, take_short_string,
    take_long_string, take_timestamp, take_table, lemma_bit_packing,
    lemma_args_model_index,
};

verus! {

#[derive(Debug, PartialEq)]
pub enum QueueClass {
    Declare(DeclareMethod),
    DeclareOk(DeclareOkMethod),
    Bind(BindMethod),
    BindOk,
    Purge(PurgeMethod),
    PurgeOk(PurgeOkMethod),
    Delete(DeleteMethod),
    DeleteOk(DeleteOkMethod),
    Unbind(UnbindMethod),
    UnbindOk,
}

#[derive(Debug, PartialEq)]
pub struct DeclareMethod {
    pub reserved1: u16,
    pub queue: AmqpString,
    pub passive: bool,
    pub durable: bool,
    pub exclusive: bool,
    pub auto_delete: bool,
    pub no_wait: bool,
    pub arguments: FieldTable,
}

#[derive(Debug, PartialEq)]
pub struct DeclareOkMethod {
    pub queue: AmqpString,
    pub message_count: u32,
    pub consumer_count: u32,
}

#[derive(Debug, PartialEq)]
pub struct BindMethod {
    pub reserved1: u16,
    pub queue: AmqpString,
    pub exchange: AmqpString,
    pub routing_key: AmqpString,
    pub no_wait: bool,
    pub arguments: FieldTable,
}

#[derive(Debug, PartialEq)]
pub struct PurgeMethod {
    pub reserved1: u16,
    pub queue: AmqpString,
    pub no_wait: bool,
}

#[derive(Debug, PartialEq)]
pub struct PurgeOkMethod {
    pub message_count: u32,
}

#[derive(Debug, PartialEq)]
pub struct DeleteMethod {
    pub reserved1: u16,
    pub queue: AmqpString,
    pub if_unused: bool,
    pub if_empty: bool,
    pub no_wait: bool,
}

#[derive(Debug, PartialEq)]
pub struct DeleteOkMethod {
    pub message_count: u32,
}

#[derive(Debug, PartialEq)]
pub struct UnbindMethod {
    pub reserved1: u16,
    pub queue: AmqpString,
    pub exchange: AmqpString,
    pub routing_key: AmqpString,
    pub arguments: FieldTable,
}

/// The method id of a queue method.
pub open spec fn queue_mid(c: QueueClass) -> u16 {
    match c {
        QueueClass::Declare(_) => 10,
        QueueClass::DeclareOk(_) => 11,
        QueueClass::Bind(_) => 20,
        QueueClass::BindOk => 21,
        QueueClass::Purge(_) => 30,
        QueueClass::PurgeOk(_) => 31,
        QueueClass::Delete(_) => 40,
        QueueClass::DeleteOk(_) => 41,
        QueueClass::Unbind(_) => 50,
        QueueClass::UnbindOk => 51,
    }
}

/// The argument list a queue method encodes to.
pub open spec fn queue_margs(c: QueueClass) -> Seq<ArgModel> {
    match c {
        QueueClass::Declare(m) => seq![
            ArgModel::Short(m.reserved1),
            ArgModel::ShortString(m.queue@),
            ArgModel::Bits(pack_bits5(m.passive, m.durable, m.exclusive, m.auto_delete, m.no_wait)),
            ArgModel::FieldTable(table_model(m.arguments.0@)),
        ],
        QueueClass::DeclareOk(m) => seq![
            ArgModel::ShortString(m.queue@),
            ArgModel::Long(m.message_count),
            ArgModel::Long(m.consumer_count),
        ],
        QueueClass::Bind(m) => seq![
            ArgModel::Short(m.reserved1),
            ArgModel::ShortString(m.queue@),
            ArgModel::ShortString(m.exchange@),
            ArgModel::ShortString(m.routing_key@),
            ArgModel::Bits(pack_bits1(m.no_wait)),
            ArgModel::FieldTable(table_model(m.arguments.0@)),
        ],
        QueueClass::BindOk => Seq::empty(),
        QueueClass::Purge(m) => seq![
            ArgModel::Short(m.reserved1),
            ArgModel::ShortString(m.queue@),
            ArgModel::Bits(pack_bits1(m.no_wait)),
        ],
        QueueClass::PurgeOk(m) => seq![
            ArgModel::Long(m.message_count),
        ],
        QueueClass::Delete(m) => seq![
            ArgModel::Short(m.reserved1),
            ArgModel::ShortString(m.queue@),
            ArgModel::Bits(pack_bits3(m.if_unused, m.if_empty, m.no_wait)),
        ],
        QueueClass::DeleteOk(m) => seq![
            ArgModel::Long(m.message_count),
        ],
        QueueClass::Unbind(m) => seq![
            ArgModel::Short(m.reserved1),
            ArgModel::ShortString(m.queue@),
            ArgModel::ShortString(m.exchange@),
            ArgModel::ShortString(m.routing_key@),
            ArgModel::FieldTable(table_model(m.arguments.0@)),
        ],
        QueueClass::UnbindOk => Seq::empty(),
    }
}

impl QueueClass {
    pub fn declare(&self) -> (r: Option<&DeclareMethod>)
        ensures
            match r {
                Some(m) => *self == QueueClass::Declare(*m),
                None => !(*self is Declare),
            },
    {
        match self {
            QueueClass::Declare(m) => Some(m),
            _ => None,
        }
    }

    pub fn declare_ok(&self) -> (r: Option<&DeclareOkMethod>)
        ensures
            match r {
                Some(m) => *self == QueueClass::DeclareOk(*m),
                None => !(*self is DeclareOk),
            },
    {
        match self {
            QueueClass::DeclareOk(m) => Some(m),
            _ => None,
        }
    }

    pub fn bind(&self) -> (r: Option<&BindMethod>)
        ensures
            match r {
                Some(m) => *self == QueueClass::Bind(*m),
                None => !(*self is Bind),
            },
    {
        match self {
            QueueClass::Bind(m) => Some(m),
            _ => None,
        }
    }

    pub fn bind_ok(&self) -> (r: Option<()>)
        ensures
            r is Some <==> *self is BindOk,
    {
        match self {
            QueueClass::BindOk => Some(()),
            _ => None,
        }
    }

    pub fn purge(&self) -> (r: Option<&PurgeMethod>)
        ensures
            match r {
                Some(m) => *self == QueueClass::Purge(*m),
                None => !(*self is Purge),
            },
    {
        match self {
            QueueClass::Purge(m) => Some(m),
            _ => None,
        }
    }

    pub fn purge_ok(&self) -> (r: Option<&PurgeOkMethod>)
        ensures
            match r {
                Some(m) => *self == QueueClass::PurgeOk(*m),
                None => !(*self is PurgeOk),
            },
    {
        match self {
            QueueClass::PurgeOk(m) => Some(m),
            _ => None,
        }
    }

    pub fn delete(&self) -> (r: Option<&DeleteMethod>)
        ensures
            match r {
                Some(m) => *self == QueueClass::Delete(*m),
                None => !(*self is Delete),
            },
    {
        match self {
            QueueClass::Delete(m) => Some(m),
            _ => None,
        }
    }

    pub fn delete_ok(&self) -> (r: Option<&DeleteOkMethod>)
        ensures
            match r {
                Some(m) => *self == QueueClass::DeleteOk(*m),
                None => !(*self is DeleteOk),
            },
    {
        match self {
            QueueClass::DeleteOk(m) => Some(m),
            _ => None,
        }
    }

    pub fn unbind(&self) -> (r: Option<&UnbindMethod>)
        ensures
            match r {
                Some(m) => *self == QueueClass::Unbind(*m),
                None => !(*self is Unbind),
            },
    {
        match self {
            QueueClass::Unbind(m) => Some(m),
            _ => None,
        }
    }

    pub fn unbind_ok(&self) -> (r: Option<()>)
        ensures
            r is Some <==> *self is UnbindOk,
    {
        match self {
            QueueClass::UnbindOk => Some(()),
            _ => None,
        }
    }

    /// Turn the method into its method id and argument list.
    pub fn into_args(self) -> (r: (u16, Arguments))
        ensures
            r.0 == queue_mid(self),
            args_model(r.1.0@) == queue_margs(self),
    {
        let mut v: Vec<Argument> = Vec::new();
        let mid: u16 = match self {
            QueueClass::Declare(m) => {
                v.push(Argument::Short(m.reserved1));
                v.push(Argument::ShortString(m.queue));
                v.push(Argument::Bits(pack5(m.passive, m.durable, m.exclusive, m.auto_delete, m.no_wait)));
                v.push(Argument::FieldTable(m.arguments));
                10
            },
            QueueClass::DeclareOk(m) => {
                v.push(Argument::ShortString(m.queue));
                v.push(Argument::Long(m.message_count));
                v.push(Argument::Long(m.consumer_count));
                11
            },
            QueueClass::Bind(m) => {
                v.push(Argument::Short(m.reserved1));
                v.push(Argument::ShortString(m.queue));
                v.push(Argument::ShortString(m.exchange));
                v.push(Argument::ShortString(m.routing_key));
                v.push(Argument::Bits(pack1(m.no_wait)));
                v.push(Argument::FieldTable(m.arguments));
                20
            },
            QueueClass::BindOk => 21,
            QueueClass::Purge(m) => {
                v.push(Argument::Short(m.reserved1));
                v.push(Argument::ShortString(m.queue));
                v.push(Argument::Bits(pack1(m.no_wait)));
                30
            },
            QueueClass::PurgeOk(m) => {
                v.push(Argument::Long(m.message_count));
                31
            },
            QueueClass::Delete(m) => {
                v.push(Argument::Short(m.reserved1));
                v.push(Argument::ShortString(m.queue));
                v.push(Argument::Bits(pack3(m.if_unused, m.if_empty, m.no_wait)));
                40
            },
            QueueClass::DeleteOk(m) => {
                v.push(Argument::Long(m.message_count));
                41
            },
            QueueClass::Unbind(m) => {
                v.push(Argument::Short(m.reserved1));
                v.push(Argument::ShortString(m.queue));
                v.push(Argument::ShortString(m.exchange));
                v.push(Argument::ShortString(m.routing_key));
                v.push(Argument::FieldTable(m.arguments));
                50
            },
            QueueClass::UnbindOk => 51,
        };
        proof {
            assert(args_model(v@) =~= queue_margs(self));
        }
        (mid, Arguments(v))
    }

    /// Rebuild the method from its method id and argument list.  Succeeds on
    /// the argument list of any method of this class with this id.
    #[verifier::rlimit(100)]
    #[verifier::spinoff_prover]
    pub fn from_args(mid: u16, args: Arguments) -> (r: Option<QueueClass>)
        ensures
            r matches Some(g) ==> queue_mid(g) == mid,
            forall|c: QueueClass|
                queue_mid(c) == mid && queue_margs(c) == args_model(args.0@) ==> (r matches Some(
                    g,
                ) && queue_margs(g) == queue_margs(c)),
    {
        let mut v = args.0;
        match mid {
            10 => {
                if v.len() != 4 {
                    proof {
                        assert forall|c: QueueClass|
                            !(queue_mid(c) == mid && queue_margs(c) == args_model(
                                args.0@,
                            )) by {
                            if queue_mid(c) == mid && queue_margs(c) == args_model(args.0@) {
                                lemma_args_model_index(args.0@);
                                assert(forall|i: int| 0 <= i < args.0@.len()
                                    ==> #[trigger] queue_margs(c)[i] == arg_model(args.0@[i]));
                                assert(false);
                            }
                        }
                    }
                    return None;
                }
                let e3 = match take_table(&mut v) {
                    None => {
                        proof {
                            assert(v@.last() == args.0@[v@.len() - 1]);
                            assert forall|c: QueueClass|
                                !(queue_mid(c) == mid && queue_margs(c) == args_model(
                                    args.0@,
                                )) by {
                                if queue_mid(c) == mid && queue_margs(c) == args_model(args.0@) {
                                    lemma_args_model_index(args.0@);
                                    assert(args_model(args.0@)[v@.len() - 1] == arg_model(
                                        args.0@[v@.len() - 1],
                                    ));
                                    assert(false);
                                }
                            }
                        }
                        return None;
                    },
                    Some(x) => x,
                };
                let e2 = match take_bits(&mut v) {
                    None => {
                        proof {
                            assert(v@.last() == args.0@[v@.len() - 1]);
                            assert forall|c: QueueClass|
                                !(queue_mid(c) == mid && queue_margs(c) == args_model(
                                    args.0@,
                                )) by {
                                if queue_mid(c) == mid && queue_margs(c) == args_model(args.0@) {
                                    lemma_args_model_index(args.0@);
                                    assert(args_model(args.0@)[v@.len() - 1] == arg_model(
                                        args.0@[v@.len() - 1],
                                    ));
                                    assert(false);
                                }
                            }
                        }
                        return None;
                    },
                    Some(x) => x,
                };
                let e1 = match take_short_string(&mut v) {
                    None => {
                        proof {
                            assert(v@.last() == args.0@[v@.len() - 1]);
                            assert forall|c: QueueClass|
                                !(queue_mid(c) == mid && queue_margs(c) == args_model(
                                    args.0@,
                                )) by {
                                if queue_mid(c) == mid && queue_margs(c) == args_model(args.0@) {
                                    lemma_args_model_index(args.0@);
                                    assert(args_model(args.0@)[v@.len() - 1] == arg_model(
                                        args.0@[v@.len() - 1],
                                    ));
                                    assert(false);
                                }
                            }
                        }
                        return None;
                    },
                    Some(x) => x,
                };
                let e0 = match take_short(&mut v) {
                    None => {
                        proof {
                            assert(v@.last() == args.0@[v@.len() - 1]);
                            assert forall|c: QueueClass|
                                !(queue_mid(c) == mid && queue_margs(c) == args_model(
                                    args.0@,
                                )) by {
                                if queue_mid(c) == mid && queue_margs(c) == args_model(args.0@) {
                                    lemma_args_model_index(args.0@);
                                    assert(args_model(args.0@)[v@.len() - 1] == arg_model(
                                        args.0@[v@.len() - 1],
                                    ));
                                    assert(false);
                                }
                            }
                        }
                        return None;
                    },
                    Some(x) => x,
                };
                let g = QueueClass::Declare(DeclareMethod {
                    reserved1: e0,
                    queue: e1,
                    passive: unpack_bit(e2, 0),
                    durable: unpack_bit(e2, 1),
                    exclusive: unpack_bit(e2, 2),
                    auto_delete: unpack_bit(e2, 3),
                    no_wait: unpack_bit(e2, 4),
                    arguments: e3,
                });
                proof {
                    assert forall|c: QueueClass|
                        queue_mid(c) == mid && queue_margs(c) == args_model(
                            args.0@,
                        ) implies queue_margs(g) == queue_margs(c) by {
                        if let QueueClass::Declare(a) = c {
                            lemma_args_model_index(args.0@);
                            assert(forall|i: int| 0 <= i < args.0@.len()
                                ==> #[trigger] queue_margs(c)[i] == arg_model(args.0@[i]));
                            lemma_bit_packing(a.passive, a.durable, a.exclusive, a.auto_delete, a.no_wait);
                            assert(queue_margs(g) =~= queue_margs(c));
                        }
                    }
                }
                Some(g)
            },
            11 => {
                if v.len() != 3 {
                    proof {
                        assert forall|c: QueueClass|
                            !(queue_mid(c) == mid && queue_margs(c) == args_model(
                                args.0@,
                            )) by {
                            if queue_mid(c) == mid && queue_margs(c) == args_model(args.0@) {
                                lemma_args_model_index(args.0@);
                                assert(forall|i: int| 0 <= i < args.0@.len()
                                    ==> #[trigger] queue_margs(c)[i] == arg_model(args.0@[i]));
                                assert(false);
                            }
                        }
                    }
                    return None;
                }
                let e2 = match take_long(&mut v) {
                    None => {
                        proof {
                            assert(v@.last() == args.0@[v@.len() - 1]);
                            assert forall|c: QueueClass|
                                !(queue_mid(c) == mid && queue_margs(c) == args_model(
                                    args.0@,
                                )) by {
                                if queue_mid(c) == mid && queue_margs(c) == args_model(args.0@) {
                                    lemma_args_model_index(args.0@);
                                    assert(args_model(args.0@)[v@.len() - 1] == arg_model(
                                        args.0@[v@.len() - 1],
                                    ));
                                    assert(false);
                                }
                            }
                        }
                        return None;
                    },
                    Some(x) => x,
                };
                let e1 = match take_long(&mut v) {
                    None => {
                        proof {
                            assert(v@.last() == args.0@[v@.len() - 1]);
                            assert forall|c: QueueClass|
                                !(queue_mid(c) == mid && queue_margs(c) == args_model(
                                    args.0@,
                                )) by {
                                if queue_mid(c) == mid && queue_margs(c) == args_model(args.0@) {
                                    lemma_args_model_index(args.0@);
                                    assert(args_model(args.0@)[v@.len() - 1] == arg_model(
                                        args.0@[v@.len() - 1],
                                    ));
                                    assert(false);
                                }
                            }
                        }
                        return None;
                    },
                    Some(x) => x,
                };
                let e0 = match take_short_string(&mut v) {
                    None => {
                        proof {
                            assert(v@.last() == args.0@[v@.len() - 1]);
                            assert forall|c: QueueClass|
                                !(queue_mid(c) == mid && queue_margs(c) == args_model(
                                    args.0@,
                                )) by {
                                if queue_mid(c) == mid && queue_margs(c) == args_model(args.0@) {
                                    lemma_args_model_index(args.0@);
                                    assert(args_model(args.0@)[v@.len() - 1] == arg_model(
                                        args.0@[v@.len() - 1],
                                    ));
                                    assert(false);
                                }
                            }
                        }
                        return None;
                    },
                    Some(x) => x,
                };
                let g = QueueClass::DeclareOk(DeclareOkMethod {
                    queue: e0,
                    message_count: e1,
                    consumer_count: e2,
                });
                proof {
                    assert(queue_margs(g) =~= args_model(args.0@));
                }
                Some(g)
            },
            20 => {
                if v.len() != 6 {
                    proof {
                        assert forall|c: QueueClass|
                            !(queue_mid(c) == mid && queue_margs(c) == args_model(
                                args.0@,
                            )) by {
                            if queue_mid(c) == mid && queue_margs(c) == args_model(args.0@) {
                                lemma_args_model_index(args.0@);
                                assert(forall|i: int| 0 <= i < args.0@.len()
                                    ==> #[trigger] queue_margs(c)[i] == arg_model(args.0@[i]));
                                assert(false);
                            }
                        }
                    }
                    return None;
                }
                let e5 = match take_table(&mut v) {
                    None => {
                        proof {
                            assert(v@.last() == args.0@[v@.len() - 1]);
                            assert forall|c: QueueClass|
                                !(queue_mid(c) == mid && queue_margs(c) == args_model(
                                    args.0@,
                                )) by {
                                if queue_mid(c) == mid && queue_margs(c) == args_model(args.0@) {
                                    lemma_args_model_index(args.0@);
                                    assert(args_model(args.0@)[v@.len() - 1] == arg_model(
                                        args.0@[v@.len() - 1],
                                    ));
                                    assert(false);
                                }
                            }
                        }
                        return None;
                    },
                    Some(x) => x,
                };
                let e4 = match take_bits(&mut v) {
                    None => {
                        proof {
                            assert(v@.last() == args.0@[v@.len() - 1]);
                            assert forall|c: QueueClass|
                                !(queue_mid(c) == mid && queue_margs(c) == args_model(
                                    args.0@,
                                )) by {
                                if queue_mid(c) == mid && queue_margs(c) == args_model(args.0@) {
                                    lemma_args_model_index(args.0@);
                                    assert(args_model(args.0@)[v@.len() - 1] == arg_model(
                                        args.0@[v@.len() - 1],
                                    ));
                                    assert(false);
                                }
                            }
                        }
                        return None;
                    },
                    Some(x) => x,
                };
                let e3 = match take_short_string(&mut v) {
                    None => {
                        proof {
                            assert(v@.last() == args.0@[v@.len() - 1]);
                            assert forall|c: QueueClass|
                                !(queue_mid(c) == mid && queue_margs(c) == args_model(
                                    args.0@,
                                )) by {
                                if queue_mid(c) == mid && queue_margs(c) == args_model(args.0@) {
                                    lemma_args_model_index(args.0@);
                                    assert(args_model(args.0@)[v@.len() - 1] == arg_model(
                                        args.0@[v@.len() - 1],
                                    ));
                                    assert(false);
                                }
                            }
                        }
                        return None;
                    },
                    Some(x) => x,
                };
                let e2 = match take_short_string(&mut v) {
                    None => {
                        proof {
                            assert(v@.last() == args.0@[v@.len() - 1]);
                            assert forall|c: QueueClass|
                                !(queue_mid(c) == mid && queue_margs(c) == args_model(
                                    args.0@,
                                )) by {
                                if queue_mid(c) == mid && queue_margs(c) == args_model(args.0@) {
                                    lemma_args_model_index(args.0@);
                                    assert(args_model(args.0@)[v@.len() - 1] == arg_model(
                                        args.0@[v@.len() - 1],
                                    ));
                                    assert(false);
                                }
                            }
                        }
                        return None;
                    },
                    Some(x) => x,
                };
                let e1 = match take_short_string(&mut v) {
                    None => {
                        proof {
                            assert(v@.last() == args.0@[v@.len() - 1]);
                            assert forall|c: QueueClass|
                                !(queue_mid(c) == mid && queue_margs(c) == args_model(
                                    args.0@,
                                )) by {
                                if queue_mid(c) == mid && queue_margs(c) == args_model(args.0@) {
                                    lemma_args_model_index(args.0@);
                                    assert(args_model(args.0@)[v@.len() - 1] == arg_model(
                                        args.0@[v@.len() - 1],
                                    ));
                                    assert(false);
                                }
                            }
                        }
                        return None;
                    },
                    Some(x) => x,
                };
                let e0 = match take_short(&mut v) {
                    None => {
                        proof {
                            assert(v@.last() == args.0@[v@.len() - 1]);
                            assert forall|c: QueueClass|
                                !(queue_mid(c) == mid && queue_margs(c) == args_model(
                                    args.0@,
                                )) by {
                                if queue_mid(c) == mid && queue_margs(c) == args_model(args.0@) {
                                    lemma_args_model_index(args.0@);
                                    assert(args_model(args.0@)[v@.len() - 1] == arg_model(
                                        args.0@[v@.len() - 1],
                                    ));
                                    assert(false);
                                }
                            }
                        }
                        return None;
                    },
                    Some(x) => x,
                };
                let g = QueueClass::Bind(BindMethod {
                    reserved1: e0,
                    queue: e1,
                    exchange: e2,
                    routing_key: e3,
                    no_wait: unpack_bit(e4, 0),
                    arguments: e5,
                });
                proof {
                    assert forall|c: QueueClass|
                        queue_mid(c) == mid && queue_margs(c) == args_model(
                            args.0@,
                        ) implies queue_margs(g) == queue_margs(c) by {
                        if let QueueClass::Bind(a) = c {
                            lemma_args_model_index(args.0@);
                            assert(forall|i: int| 0 <= i < args.0@.len()
                                ==> #[trigger] queue_margs(c)[i] == arg_model(args.0@[i]));
                            lemma_bit_packing(a.no_wait, false, false, false, false);
                            assert(queue_margs(g) =~= queue_margs(c));
                        }
                    }
                }
                Some(g)
            },
            21 => {
                if v.len() != 0 {
                    proof {
                        assert forall|c: QueueClass|
                            !(queue_mid(c) == mid && queue_margs(c) == args_model(
                                args.0@,
                            )) by {
                            if queue_mid(c) == mid && queue_margs(c) == args_model(args.0@) {
                                lemma_args_model_index(args.0@);
                                assert(forall|i: int| 0 <= i < args.0@.len()
                                    ==> #[trigger] queue_margs(c)[i] == arg_model(args.0@[i]));
                                assert(false);
                            }
                        }
                    }
                    return None;
                }
                let g = QueueClass::BindOk;
                proof {
                    assert(queue_margs(g) =~= args_model(args.0@));
                }
                Some(g)
            },
            30 => {
                if v.len() != 3 {
                    proof {
                        assert forall|c: QueueClass|
                            !(queue_mid(c) == mid && queue_margs(c) == args_model(
                                args.0@,
                            )) by {
                            if queue_mid(c) == mid && queue_margs(c) == args_model(args.0@) {
                                lemma_args_model_index(args.0@);
                                assert(forall|i: int| 0 <= i < args.0@.len()
                                    ==> #[trigger] queue_margs(c)[i] == arg_model(args.0@[i]));
                                assert(false);
                            }
                        }
                    }
                    return None;
                }
                let e2 = match take_bits(&mut v) {
                    None => {
                        proof {
                            assert(v@.last() == args.0@[v@.len() - 1]);
                            assert forall|c: QueueClass|
                                !(queue_mid(c) == mid && queue_margs(c) == args_model(
                                    args.0@,
                                )) by {
                                if queue_mid(c) == mid && queue_margs(c) == args_model(args.0@) {
                                    lemma_args_model_index(args.0@);
                                    assert(args_model(args.0@)[v@.len() - 1] == arg_model(
                                        args.0@[v@.len() - 1],
                                    ));
                                    assert(false);
                                }
                            }
                        }
                        return None;
                    },
                    Some(x) => x,
                };
                let e1 = match take_short_string(&mut v) {
                    None => {
                        proof {
                            assert(v@.last() == args.0@[v@.len() - 1]);
                            assert forall|c: QueueClass|
                                !(queue_mid(c) == mid && queue_margs(c) == args_model(
                                    args.0@,
                                )) by {
                                if queue_mid(c) == mid && queue_margs(c) == args_model(args.0@) {
                                    lemma_args_model_index(args.0@);
                                    assert(args_model(args.0@)[v@.len() - 1] == arg_model(
                                        args.0@[v@.len() - 1],
                                    ));
                                    assert(false);
                                }
                            }
                        }
                        return None;
                    },
                    Some(x) => x,
                };
                let e0 = match take_short(&mut v) {
                    None => {
                        proof {
                            assert(v@.last() == args.0@[v@.len() - 1]);
                            assert forall|c: QueueClass|
                                !(queue_mid(c) == mid && queue_margs(c) == args_model(
                                    args.0@,
                                )) by {
                                if queue_mid(c) == mid && queue_margs(c) == args_model(args.0@) {
                                    lemma_args_model_index(args.0@);
                                    assert(args_model(args.0@)[v@.len() - 1] == arg_model(
                                        args.0@[v@.len() - 1],
                                    ));
                                    assert(false);
                                }
                            }
                        }
                        return None;
                    },
                    Some(x) => x,
                };
                let g = QueueClass::Purge(PurgeMethod {
                    reserved1: e0,
                    queue: e1,
                    no_wait: unpack_bit(e2, 0),
                });
                proof {
                    assert forall|c: QueueClass|
                        queue_mid(c) == mid && queue_margs(c) == args_model(
                            args.0@,
                        ) implies queue_margs(g) == queue_margs(c) by {
                        if let QueueClass::Purge(a) = c {
                            lemma_args_model_index(args.0@);
                            assert(forall|i: int| 0 <= i < args.0@.len()
                                ==> #[trigger] queue_margs(c)[i] == arg_model(args.0@[i]));
                            lemma_bit_packing(a.no_wait, false, false, false, false);
                            assert(queue_margs(g) =~= queue_margs(c));
                        }
                    }
                }
                Some(g)
            },
            31 => {
                if v.len() != 1 {
                    proof {
                        assert forall|c: QueueClass|
                            !(queue_mid(c) == mid && queue_margs(c) == args_model(
                                args.0@,
                            )) by {
                            if queue_mid(c) == mid && queue_margs(c) == args_model(args.0@) {
                                lemma_args_model_index(args.0@);
                                assert(forall|i: int| 0 <= i < args.0@.len()
                                    ==> #[trigger] queue_margs(c)[i] == arg_model(args.0@[i]));
                                assert(false);
                            }
                        }
                    }
                    return None;
                }
                let e0 = match take_long(&mut v) {
                    None => {
                        proof {
                            assert(v@.last() == args.0@[v@.len() - 1]);
                            assert forall|c: QueueClass|
                                !(queue_mid(c) == mid && queue_margs(c) == args_model(
                                    args.0@,
                                )) by {
                                if queue_mid(c) == mid && queue_margs(c) == args_model(args.0@) {
                                    lemma_args_model_index(args.0@);
                                    assert(args_model(args.0@)[v@.len() - 1] == arg_model(
                                        args.0@[v@.len() - 1],
                                    ));
                                    assert(false);
                                }
                            }
                        }
                        return None;
                    },
                    Some(x) => x,
                };
                let g = QueueClass::PurgeOk(PurgeOkMethod {
                    message_count: e0,
                });
                proof {
                    assert(queue_margs(g) =~= args_model(args.0@));
                }
                Some(g)
            },
            40 => {
                if v.len() != 3 {
                    proof {
                        assert forall|c: QueueClass|
                            !(queue_mid(c) == mid && queue_margs(c) == args_model(
                                args.0@,
                            )) by {
                            if queue_mid(c) == mid && queue_margs(c) == args_model(args.0@) {
                                lemma_args_model_index(args.0@);
                                assert(forall|i: int| 0 <= i < args.0@.len()
                                    ==> #[trigger] queue_margs(c)[i] == arg_model(args.0@[i]));
                                assert(false);
                            }
                        }
                    }
                    return None;
                }
                let e2 = match take_bits(&mut v) {
                    None => {
                        proof {
                            assert(v@.last() == args.0@[v@.len() - 1]);
                            assert forall|c: QueueClass|
                                !(queue_mid(c) == mid && queue_margs(c) == args_model(
                                    args.0@,
                                )) by {
                                if queue_mid(c) == mid && queue_margs(c) == args_model(args.0@) {
                                    lemma_args_model_index(args.0@);
                                    assert(args_model(args.0@)[v@.len() - 1] == arg_model(
                                        args.0@[v@.len() - 1],
                                    ));
                                    assert(false);
                                }
                            }
                        }
                        return None;
                    },
                    Some(x) => x,
                };
                let e1 = match take_short_string(&mut v) {
                    None => {
                        proof {
                            assert(v@.last() == args.0@[v@.len() - 1]);
                            assert forall|c: QueueClass|
                                !(queue_mid(c) == mid && queue_margs(c) == args_model(
                                    args.0@,
                                )) by {
                                if queue_mid(c) == mid && queue_margs(c) == args_model(args.0@) {
                                    lemma_args_model_index(args.0@);
                                    assert(args_model(args.0@)[v@.len() - 1] == arg_model(
                                        args.0@[v@.len() - 1],
                                    ));
                                    assert(false);
                                }
                            }
                        }
                        return None;
                    },
                    Some(x) => x,
                };
                let e0 = match take_short(&mut v) {
                    None => {
                        proof {
                            assert(v@.last() == args.0@[v@.len() - 1]);
                            assert forall|c: QueueClass|
                                !(queue_mid(c) == mid && queue_margs(c) == args_model(
                                    args.0@,
                                )) by {
                                if queue_mid(c) == mid && queue_margs(c) == args_model(args.0@) {
                                    lemma_args_model_index(args.0@);
                                    assert(args_model(args.0@)[v@.len() - 1] == arg_model(
                                        args.0@[v@.len() - 1],
                                    ));
                                    assert(false);
                                }
                            }
                        }
                        return None;
                    },
                    Some(x) => x,
                };
                let g = QueueClass::Delete(DeleteMethod {
                    reserved1: e0,
                    queue: e1,
                    if_unused: unpack_bit(e2, 0),
                    if_empty: unpack_bit(e2, 1),
                    no_wait: unpack_bit(e2, 2),
                });
                proof {
                    assert forall|c: QueueClass|
                        queue_mid(c) == mid && queue_margs(c) == args_model(
                            args.0@,
                        ) implies queue_margs(g) == queue_margs(c) by {
                        if let QueueClass::Delete(a) = c {
                            lemma_args_model_index(args.0@);
                            assert(forall|i: int| 0 <= i < args.0@.len()
                                ==> #[trigger] queue_margs(c)[i] == arg_model(args.0@[i]));
                            lemma_bit_packing(a.if_unused, a.if_empty, a.no_wait, false, false);
                            assert(queue_margs(g) =~= queue_margs(c));
                        }
                    }
                }
                Some(g)
            },
            41 => {
                if v.len() != 1 {
                    proof {
                        assert forall|c: QueueClass|
                            !(queue_mid(c) == mid && queue_margs(c) == args_model(
                                args.0@,
                            )) by {
                            if queue_mid(c) == mid && queue_margs(c) == args_model(args.0@) {
                                lemma_args_model_index(args.0@);
                                assert(forall|i: int| 0 <= i < args.0@.len()
                                    ==> #[trigger] queue_margs(c)[i] == arg_model(args.0@[i]));
                                assert(false);
                            }
                        }
                    }
                    return None;
                }
                let e0 = match take_long(&mut v) {
                    None => {
                        proof {
                            assert(v@.last() == args.0@[v@.len() - 1]);
                            assert forall|c: QueueClass|
                                !(queue_mid(c) == mid && queue_margs(c) == args_model(
                                    args.0@,
                                )) by {
                                if queue_mid(c) == mid && queue_margs(c) == args_model(args.0@) {
                                    lemma_args_model_index(args.0@);
                                    assert(args_model(args.0@)[v@.len() - 1] == arg_model(
                                        args.0@[v@.len() - 1],
                                    ));
                                    assert(false);
                                }
                            }
                        }
                        return None;
                    },
                    Some(x) => x,
                };
                let g = QueueClass::DeleteOk(DeleteOkMethod {
                    message_count: e0,
                });
                proof {
                    assert(queue_margs(g) =~= args_model(args.0@));
                }
                Some(g)
            },
            50 => {
                if v.len() != 5 {
                    proof {
                        assert forall|c: QueueClass|
                            !(queue_mid(c) == mid && queue_margs(c) == args_model(
                                args.0@,
                            )) by {
                            if queue_mid(c) == mid && queue_margs(c) == args_model(args.0@) {
                                lemma_args_model_index(args.0@);
                                assert(forall|i: int| 0 <= i < args.0@.len()
                                    ==> #[trigger] queue_margs(c)[i] == arg_model(args.0@[i]));
                                assert(false);
                            }
                        }
                    }
                    return None;
                }
                let e4 = match take_table(&mut v) {
                    None => {
                        proof {
                            assert(v@.last() == args.0@[v@.len() - 1]);
                            assert forall|c: QueueClass|
                                !(queue_mid(c) == mid && queue_margs(c) == args_model(
                                    args.0@,
                                )) by {
                                if queue_mid(c) == mid && queue_margs(c) == args_model(args.0@) {
                                    lemma_args_model_index(args.0@);
                                    assert(args_model(args.0@)[v@.len() - 1] == arg_model(
                                        args.0@[v@.len() - 1],
                                    ));
                                    assert(false);
                                }
                            }
                        }
                        return None;
                    },
                    Some(x) => x,
                };
                let e3 = match take_short_string(&mut v) {
                    None => {
                        proof {
                            assert(v@.last() == args.0@[v@.len() - 1]);
                            assert forall|c: QueueClass|
                                !(queue_mid(c) == mid && queue_margs(c) == args_model(
                                    args.0@,
                                )) by {
                                if queue_mid(c) == mid && queue_margs(c) == args_model(args.0@) {
                                    lemma_args_model_index(args.0@);
                                    assert(args_model(args.0@)[v@.len() - 1] == arg_model(
                                        args.0@[v@.len() - 1],
                                    ));
                                    assert(false);
                                }
                            }
                        }
                        return None;
                    },
                    Some(x) => x,
                };
                let e2 = match take_short_string(&mut v) {
                    None => {
                        proof {
                            assert(v@.last() == args.0@[v@.len() - 1]);
                            assert forall|c: QueueClass|
                                !(queue_mid(c) == mid && queue_margs(c) == args_model(
                                    args.0@,
                                )) by {
                                if queue_mid(c) == mid && queue_margs(c) == args_model(args.0@) {
                                    lemma_args_model_index(args.0@);
                                    assert(args_model(args.0@)[v@.len() - 1] == arg_model(
                                        args.0@[v@.len() - 1],
                                    ));
                                    assert(false);
                                }
                            }
                        }
                        return None;
                    },
                    Some(x) => x,
                };
                let e1 = match take_short_string(&mut v) {
                    None => {
                        proof {
                            assert(v@.last() == args.0@[v@.len() - 1]);
                            assert forall|c: QueueClass|
                                !(queue_mid(c) == mid && queue_margs(c) == args_model(
                                    args.0@,
                                )) by {
                                if queue_mid(c) == mid && queue_margs(c) == args_model(args.0@) {
                                    lemma_args_model_index(args.0@);
                                    assert(args_model(args.0@)[v@.len() - 1] == arg_model(
                                        args.0@[v@.len() - 1],
                                    ));
                                    assert(false);
                                }
                            }
                        }
                        return None;
                    },
                    Some(x) => x,
                };
                let e0 = match take_short(&mut v) {
                    None => {
                        proof {
                            assert(v@.last() == args.0@[v@.len() - 1]);
                            assert forall|c: QueueClass|
                                !(queue_mid(c) == mid && queue_margs(c) == args_model(
                                    args.0@,
                                )) by {
                                if queue_mid(c) == mid && queue_margs(c) == args_model(args.0@) {
                                    lemma_args_model_index(args.0@);
                                    assert(args_model(args.0@)[v@.len() - 1] == arg_model(
                                        args.0@[v@.len() - 1],
                                    ));
                                    assert(false);
                                }
                            }
                        }
                        return None;
                    },
                    Some(x) => x,
                };
                let g = QueueClass::Unbind(UnbindMethod {
                    reserved1: e0,
                    queue: e1,
                    exchange: e2,
                    routing_key: e3,
                    arguments: e4,
                });
                proof {
                    assert(queue_margs(g) =~= args_model(args.0@));
                }
                Some(g)
            },
            51 => {
                if v.len() != 0 {
                    proof {
                        assert forall|c: QueueClass|
                            !(queue_mid(c) == mid && queue_margs(c) == args_model(
                                args.0@,
                            )) by {
                            if queue_mid(c) == mid && queue_margs(c) == args_model(args.0@) {
                                lemma_args_model_index(args.0@);
                                assert(forall|i: int| 0 <= i < args.0@.len()
                                    ==> #[trigger] queue_margs(c)[i] == arg_model(args.0@[i]));
                                assert(false);
                            }
                        }
                    }
                    return None;
                }
                let g = QueueClass::UnbindOk;
                proof {
                    assert(queue_margs(g) =~= args_model(args.0@));
                }
                Some(g)
            },
            _ => None,
        }
    }
}

} // verus!
