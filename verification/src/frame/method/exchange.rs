//! Exchange class methods (class id 40).

use vstd::prelude::*;

use crate::args::{AmqpString, FieldTable, table_model};
use crate::methods::args::{
    Argument, Arguments, ArgModel, args_model, arg_model, pack_bits1, pack_bits2,
    pack_bits3, pack_bits4, pack_bits5, pack1, pack2, pack3, pack4, pack5, unpack_bit,
    take_octet, take_short, take_long, take_longlong, take_bits, take_short_string,
    take_long_string, take_timestamp, take_table, lemma_bit_packing,
    lemma_args_model_index,
};

verus! {

#[derive(Debug, PartialEq)]
pub enum ExchangeClass {
    Declare(DeclareMethod),
    DeclareOk,
    Delete(DeleteMethod),
    DeleteOk,
    Bind(BindMethod),
    BindOk,
    Unbind(UnbindMethod),
    UnbindOk,
}

#[derive(Debug, PartialEq)]
pub struct DeclareMethod {
    pub reserved1: u16,
    pub exchange: AmqpString,
    pub typ: AmqpString,
    pub passive: bool,
    pub durable: bool,
    pub auto_delete: bool,
    pub internal: bool,
    pub no_wait: bool,
    pub arguments: FieldTable,
}

#[derive(Debug, PartialEq)]
pub struct DeleteMethod {
    pub reserved1: u16,
    pub exchange: AmqpString,
    pub if_unused: bool,
    pub no_wait: bool,
}

#[derive(Debug, PartialEq)]
pub struct BindMethod {
    pub reserved1: u16,
    pub destination: AmqpString,
    pub source: AmqpString,
    pub routing_key: AmqpString,
    pub no_wait: bool,
    pub arguments: FieldTable,
}

#[derive(Debug, PartialEq)]
pub struct UnbindMethod {
    pub reserved1: u16,
    pub destination: AmqpString,
    pub source: AmqpString,
    pub routing_key: AmqpString,
    pub no_wait: bool,
    pub arguments: FieldTable,
}

/// The method id of a exchange method.
pub open spec fn exchange_mid(c: ExchangeClass) -> u16 {
    match c {
        ExchangeClass::Declare(_) => 10,
        ExchangeClass::DeclareOk => 11,
        ExchangeClass::Delete(_) => 20,
        ExchangeClass::DeleteOk => 21,
        ExchangeClass::Bind(_) => 30,
        ExchangeClass::BindOk => 31,
        ExchangeClass::Unbind(_) => 40,
        ExchangeClass::UnbindOk => 51,
    }
}

/// The argument list a exchange method encodes to.
pub open spec fn exchange_margs(c: ExchangeClass) -> Seq<ArgModel> {
    match c {
        ExchangeClass::Declare(m) => seq![
            ArgModel::Short(m.reserved1),
            ArgModel::ShortString(m.exchange@),
            ArgModel::ShortString(m.typ@),
            ArgModel::Bits(pack_bits5(m.passive, m.durable, m.auto_delete, m.internal, m.no_wait)),
            ArgModel::FieldTable(table_model(m.arguments.0@)),
        ],
        ExchangeClass::DeclareOk => Seq::empty(),
        ExchangeClass::Delete(m) => seq![
            ArgModel::Short(m.reserved1),
            ArgModel::ShortString(m.exchange@),
            ArgModel::Bits(pack_bits2(m.if_unused, m.no_wait)),
        ],
        ExchangeClass::DeleteOk => Seq::empty(),
        ExchangeClass::Bind(m) => seq![
            ArgModel::Short(m.reserved1),
            ArgModel::ShortString(m.destination@),
            ArgModel::ShortString(m.source@),
            ArgModel::ShortString(m.routing_key@),
            ArgModel::Bits(pack_bits1(m.no_wait)),
            ArgModel::FieldTable(table_model(m.arguments.0@)),
        ],
        ExchangeClass::BindOk => Seq::empty(),
        ExchangeClass::Unbind(m) => seq![
            ArgModel::Short(m.reserved1),
            ArgModel::ShortString(m.destination@),
            ArgModel::ShortString(m.source@),
            ArgModel::ShortString(m.routing_key@),
            ArgModel::Bits(pack_bits1(m.no_wait)),
            ArgModel::FieldTable(table_model(m.arguments.0@)),
        ],
        ExchangeClass::UnbindOk => Seq::empty(),
    }
}

impl ExchangeClass {
    pub fn declare(&self) -> (r: Option<&DeclareMethod>)
        ensures
            match r {
                Some(m) => *self == ExchangeClass::Declare(*m),
                None => !(*self is Declare),
            },
    {
        match self {
            ExchangeClass::Declare(m) => Some(m),
            _ => None,
        }
    }

    pub fn declare_ok(&self) -> (r: Option<()>)
        ensures
            r is Some <==> *self is DeclareOk,
    {
        match self {
            ExchangeClass::DeclareOk => Some(()),
            _ => None,
        }
    }

    pub fn delete(&self) -> (r: Option<&DeleteMethod>)
        ensures
            match r {
                Some(m) => *self == ExchangeClass::Delete(*m),
                None => !(*self is Delete),
            },
    {
        match self {
            ExchangeClass::Delete(m) => Some(m),
            _ => None,
        }
    }

    pub fn delete_ok(&self) -> (r: Option<()>)
        ensures
            r is Some <==> *self is DeleteOk,
    {
        match self {
            ExchangeClass::DeleteOk => Some(()),
            _ => None,
        }
    }

    pub fn bind(&self) -> (r: Option<&BindMethod>)
        ensures
            match r {
                Some(m) => *self == ExchangeClass::Bind(*m),
                None => !(*self is Bind),
            },
    {
        match self {
            ExchangeClass::Bind(m) => Some(m),
            _ => None,
        }
    }

    pub fn bind_ok(&self) -> (r: Option<()>)
        ensures
            r is Some <==> *self is BindOk,
    {
        match self {
            ExchangeClass::BindOk => Some(()),
            _ => None,
        }
    }

    pub fn unbind(&self) -> (r: Option<&UnbindMethod>)
        ensures
            match r {
                Some(m) => *self == ExchangeClass::Unbind(*m),
                None => !(*self is Unbind),
            },
    {
        match self {
            ExchangeClass::Unbind(m) => Some(m),
            _ => None,
        }
    }

    pub fn unbind_ok(&self) -> (r: Option<()>)
        ensures
            r is Some <==> *self is UnbindOk,
    {
        match self {
            ExchangeClass::UnbindOk => Some(()),
            _ => None,
        }
    }

    /// Turn the method into its method id and argument list.
    pub fn into_args(self) -> (r: (u16, Arguments))
        ensures
            r.0 == exchange_mid(self),
            args_model(r.1.0@) == exchange_margs(self),
    {
        let mut v: Vec<Argument> = Vec::new();
        let mid: u16 = match self {
            ExchangeClass::Declare(m) => {
                v.push(Argument::Short(m.reserved1));
                v.push(Argument::ShortString(m.exchange));
                v.push(Argument::ShortString(m.typ));
                v.push(Argument::Bits(pack5(m.passive, m.durable, m.auto_delete, m.internal, m.no_wait)));
                v.push(Argument::FieldTable(m.arguments));
                10
            },
            ExchangeClass::DeclareOk => 11,
            ExchangeClass::Delete(m) => {
                v.push(Argument::Short(m.reserved1));
                v.push(Argument::ShortString(m.exchange));
                v.push(Argument::Bits(pack2(m.if_unused, m.no_wait)));
                20
            },
            ExchangeClass::DeleteOk => 21,
            ExchangeClass::Bind(m) => {
                v.push(Argument::Short(m.reserved1));
                v.push(Argument::ShortString(m.destination));
                v.push(Argument::ShortString(m.source));
                v.push(Argument::ShortString(m.routing_key));
                v.push(Argument::Bits(pack1(m.no_wait)));
                v.push(Argument::FieldTable(m.arguments));
                30
            },
            ExchangeClass::BindOk => 31,
            ExchangeClass::Unbind(m) => {
                v.push(Argument::Short(m.reserved1));
                v.push(Argument::ShortString(m.destination));
                v.push(Argument::ShortString(m.source));
                v.push(Argument::ShortString(m.routing_key));
                v.push(Argument::Bits(pack1(m.no_wait)));
                v.push(Argument::FieldTable(m.arguments));
                40
            },
            ExchangeClass::UnbindOk => 51,
        };
        proof {
            assert(args_model(v@) =~= exchange_margs(self));
        }
        (mid, Arguments(v))
    }

    /// Rebuild the method from its method id and argument list.  Succeeds on
    /// the argument list of any method of this class with this id.
    #[verifier::rlimit(100)]
    #[verifier::spinoff_prover]
    pub fn from_args(mid: u16, args: Arguments) -> (r: Option<ExchangeClass>)
        ensures
            r matches Some(g) ==> exchange_mid(g) == mid,
            forall|c: ExchangeClass|
                exchange_mid(c) == mid && exchange_margs(c) == args_model(args.0@) ==> (r matches Some(
                    g,
                ) && exchange_margs(g) == exchange_margs(c)),
    {
        let mut v = args.0;
        match mid {
            10 => {
                if v.len() != 5 {
                    proof {
                        assert forall|c: ExchangeClass|
                            !(exchange_mid(c) == mid && exchange_margs(c) == args_model(
                                args.0@,
                            )) by {
                            if exchange_mid(c) == mid && exchange_margs(c) == args_model(args.0@) {
                                lemma_args_model_index(args.0@);
                                assert(forall|i: int| 0 <= i < args.0@.len()
                                    ==> #[trigger] exchange_margs(c)[i] == arg_model(args.0@[i]));
                                assert(false);
                            }
                        }
                    }
                    return None;
                }
                let e4 = match take_table(&mut v) {
                    None => {
                        proof {
                            assert(v@.last() == args.0@[v@.len() - 1]);
                            assert forall|c: ExchangeClass|
                                !(exchange_mid(c) == mid && exchange_margs(c) == args_model(
                                    args.0@,
                                )) by {
                                if exchange_mid(c) == mid && exchange_margs(c) == args_model(args.0@) {
                                    lemma_args_model_index(args.0@);
                                    assert(args_model(args.0@)[v@.len() - 1] == arg_model(
                                        args.0@[v@.len() - 1],
                                    ));
                                    assert(false);
                                }
                            }
                        }
                        return None;
                    },
                    Some(x) => x,
                };
                let e3 = match take_bits(&mut v) {
                    None => {
                        proof {
                            assert(v@.last() == args.0@[v@.len() - 1]);
                            assert forall|c: ExchangeClass|
                                !(exchange_mid(c) == mid && exchange_margs(c) == args_model(
                                    args.0@,
                                )) by {
                                if exchange_mid(c) == mid && exchange_margs(c) == args_model(args.0@) {
                                    lemma_args_model_index(args.0@);
                                    assert(args_model(args.0@)[v@.len() - 1] == arg_model(
                                        args.0@[v@.len() - 1],
                                    ));
                                    assert(false);
                                }
                            }
                        }
                        return None;
                    },
                    Some(x) => x,
                };
                let e2 = match take_short_string(&mut v) {
                    None => {
                        proof {
                            assert(v@.last() == args.0@[v@.len() - 1]);
                            assert forall|c: ExchangeClass|
                                !(exchange_mid(c) == mid && exchange_margs(c) == args_model(
                                    args.0@,
                                )) by {
                                if exchange_mid(c) == mid && exchange_margs(c) == args_model(args.0@) {
                                    lemma_args_model_index(args.0@);
                                    assert(args_model(args.0@)[v@.len() - 1] == arg_model(
                                        args.0@[v@.len() - 1],
                                    ));
                                    assert(false);
                                }
                            }
                        }
                        return None;
                    },
                    Some(x) => x,
                };
                let e1 = match take_short_string(&mut v) {
                    None => {
                        proof {
                            assert(v@.last() == args.0@[v@.len() - 1]);
                            assert forall|c: ExchangeClass|
                                !(exchange_mid(c) == mid && exchange_margs(c) == args_model(
                                    args.0@,
                                )) by {
                                if exchange_mid(c) == mid && exchange_margs(c) == args_model(args.0@) {
                                    lemma_args_model_index(args.0@);
                                    assert(args_model(args.0@)[v@.len() - 1] == arg_model(
                                        args.0@[v@.len() - 1],
                                    ));
                                    assert(false);
                                }
                            }
                        }
                        return None;
                    },
                    Some(x) => x,
                };
                let e0 = match take_short(&mut v) {
                    None => {
                        proof {
                            assert(v@.last() == args.0@[v@.len() - 1]);
                            assert forall|c: ExchangeClass|
                                !(exchange_mid(c) == mid && exchange_margs(c) == args_model(
                                    args.0@,
                                )) by {
                                if exchange_mid(c) == mid && exchange_margs(c) == args_model(args.0@) {
                                    lemma_args_model_index(args.0@);
                                    assert(args_model(args.0@)[v@.len() - 1] == arg_model(
                                        args.0@[v@.len() - 1],
                                    ));
                                    assert(false);
                                }
                            }
                        }
                        return None;
                    },
                    Some(x) => x,
                };
                let g = ExchangeClass::Declare(DeclareMethod {
                    reserved1: e0,
                    exchange: e1,
                    typ: e2,
                    passive: unpack_bit(e3, 0),
                    durable: unpack_bit(e3, 1),
                    auto_delete: unpack_bit(e3, 2),
                    internal: unpack_bit(e3, 3),
                    no_wait: unpack_bit(e3, 4),
                    arguments: e4,
                });
                proof {
                    assert forall|c: ExchangeClass|
                        exchange_mid(c) == mid && exchange_margs(c) == args_model(
                            args.0@,
                        ) implies exchange_margs(g) == exchange_margs(c) by {
                        if let ExchangeClass::Declare(a) = c {
                            lemma_args_model_index(args.0@);
                            assert(forall|i: int| 0 <= i < args.0@.len()
                                ==> #[trigger] exchange_margs(c)[i] == arg_model(args.0@[i]));
                            lemma_bit_packing(a.passive, a.durable, a.auto_delete, a.internal, a.no_wait);
                            assert(exchange_margs(g) =~= exchange_margs(c));
                        }
                    }
                }
                Some(g)
            },
            11 => {
                if v.len() != 0 {
                    proof {
                        assert forall|c: ExchangeClass|
                            !(exchange_mid(c) == mid && exchange_margs(c) == args_model(
                                args.0@,
                            )) by {
                            if exchange_mid(c) == mid && exchange_margs(c) == args_model(args.0@) {
                                lemma_args_model_index(args.0@);
                                assert(forall|i: int| 0 <= i < args.0@.len()
                                    ==> #[trigger] exchange_margs(c)[i] == arg_model(args.0@[i]));
                                assert(false);
                            }
                        }
                    }
                    return None;
                }
                let g = ExchangeClass::DeclareOk;
                proof {
                    assert(exchange_margs(g) =~= args_model(args.0@));
                }
                Some(g)
            },
            20 => {
                if v.len() != 3 {
                    proof {
                        assert forall|c: ExchangeClass|
                            !(exchange_mid(c) == mid && exchange_margs(c) == args_model(
                                args.0@,
                            )) by {
                            if exchange_mid(c) == mid && exchange_margs(c) == args_model(args.0@) {
                                lemma_args_model_index(args.0@);
                                assert(forall|i: int| 0 <= i < args.0@.len()
                                    ==> #[trigger] exchange_margs(c)[i] == arg_model(args.0@[i]));
                                assert(false);
                            }
                        }
                    }
                    return None;
                }
                let e2 = match take_bits(&mut v) {
                    None => {
                        proof {
                            assert(v@.last() == args.0@[v@.len() - 1]);
                            assert forall|c: ExchangeClass|
                                !(exchange_mid(c) == mid && exchange_margs(c) == args_model(
                                    args.0@,
                                )) by {
                                if exchange_mid(c) == mid && exchange_margs(c) == args_model(args.0@) {
                                    lemma_args_model_index(args.0@);
                                    assert(args_model(args.0@)[v@.len() - 1] == arg_model(
                                        args.0@[v@.len() - 1],
                                    ));
                                    assert(false);
                                }
                            }
                        }
                        return None;
                    },
                    Some(x) => x,
                };
                let e1 = match take_short_string(&mut v) {
                    None => {
                        proof {
                            assert(v@.last() == args.0@[v@.len() - 1]);
                            assert forall|c: ExchangeClass|
                                !(exchange_mid(c) == mid && exchange_margs(c) == args_model(
                                    args.0@,
                                )) by {
                                if exchange_mid(c) == mid && exchange_margs(c) == args_model(args.0@) {
                                    lemma_args_model_index(args.0@);
                                    assert(args_model(args.0@)[v@.len() - 1] == arg_model(
                                        args.0@[v@.len() - 1],
                                    ));
                                    assert(false);
                                }
                            }
                        }
                        return None;
                    },
                    Some(x) => x,
                };
                let e0 = match take_short(&mut v) {
                    None => {
                        proof {
                            assert(v@.last() == args.0@[v@.len() - 1]);
                            assert forall|c: ExchangeClass|
                                !(exchange_mid(c) == mid && exchange_margs(c) == args_model(
                                    args.0@,
                                )) by {
                                if exchange_mid(c) == mid && exchange_margs(c) == args_model(args.0@) {
                                    lemma_args_model_index(args.0@);
                                    assert(args_model(args.0@)[v@.len() - 1] == arg_model(
                                        args.0@[v@.len() - 1],
                                    ));
                                    assert(false);
                                }
                            }
                        }
                        return None;
                    },
                    Some(x) => x,
                };
                let g = ExchangeClass::Delete(DeleteMethod {
                    reserved1: e0,
                    exchange: e1,
                    if_unused: unpack_bit(e2, 0),
                    no_wait: unpack_bit(e2, 1),
                });
                proof {
                    assert forall|c: ExchangeClass|
                        exchange_mid(c) == mid && exchange_margs(c) == args_model(
                            args.0@,
                        ) implies exchange_margs(g) == exchange_margs(c) by {
                        if let ExchangeClass::Delete(a) = c {
                            lemma_args_model_index(args.0@);
                            assert(forall|i: int| 0 <= i < args.0@.len()
                                ==> #[trigger] exchange_margs(c)[i] == arg_model(args.0@[i]));
                            lemma_bit_packing(a.if_unused, a.no_wait, false, false, false);
                            assert(exchange_margs(g) =~= exchange_margs(c));
                        }
                    }
                }
                Some(g)
            },
            21 => {
                if v.len() != 0 {
                    proof {
                        assert forall|c: ExchangeClass|
                            !(exchange_mid(c) == mid && exchange_margs(c) == args_model(
                                args.0@,
                            )) by {
                            if exchange_mid(c) == mid && exchange_margs(c) == args_model(args.0@) {
                                lemma_args_model_index(args.0@);
                                assert(forall|i: int| 0 <= i < args.0@.len()
                                    ==> #[trigger] exchange_margs(c)[i] == arg_model(args.0@[i]));
                                assert(false);
                            }
                        }
                    }
                    return None;
                }
                let g = ExchangeClass::DeleteOk;
                proof {
                    assert(exchange_margs(g) =~= args_model(args.0@));
                }
                Some(g)
            },
            30 => {
                if v.len() != 6 {
                    proof {
                        assert forall|c: ExchangeClass|
                            !(exchange_mid(c) == mid && exchange_margs(c) == args_model(
                                args.0@,
                            )) by {
                            if exchange_mid(c) == mid && exchange_margs(c) == args_model(args.0@) {
                                lemma_args_model_index(args.0@);
                                assert(forall|i: int| 0 <= i < args.0@.len()
                                    ==> #[trigger] exchange_margs(c)[i] == arg_model(args.0@[i]));
                                assert(false);
                            }
                        }
                    }
                    return None;
                }
                let e5 = match take_table(&mut v) {
                    None => {
                        proof {
                            assert(v@.last() == args.0@[v@.len() - 1]);
                            assert forall|c: ExchangeClass|
                                !(exchange_mid(c) == mid && exchange_margs(c) == args_model(
                                    args.0@,
                                )) by {
                                if exchange_mid(c) == mid && exchange_margs(c) == args_model(args.0@) {
                                    lemma_args_model_index(args.0@);
                                    assert(args_model(args.0@)[v@.len() - 1] == arg_model(
                                        args.0@[v@.len() - 1],
                                    ));
                                    assert(false);
                                }
                            }
                        }
                        return None;
                    },
                    Some(x) => x,
                };
                let e4 = match take_bits(&mut v) {
                    None => {
                        proof {
                            assert(v@.last() == args.0@[v@.len() - 1]);
                            assert forall|c: ExchangeClass|
                                !(exchange_mid(c) == mid && exchange_margs(c) == args_model(
                                    args.0@,
                                )) by {
                                if exchange_mid(c) == mid && exchange_margs(c) == args_model(args.0@) {
                                    lemma_args_model_index(args.0@);
                                    assert(args_model(args.0@)[v@.len() - 1] == arg_model(
                                        args.0@[v@.len() - 1],
                                    ));
                                    assert(false);
                                }
                            }
                        }
                        return None;
                    },
                    Some(x) => x,
                };
                let e3 = match take_short_string(&mut v) {
                    None => {
                        proof {
                            assert(v@.last() == args.0@[v@.len() - 1]);
                            assert forall|c: ExchangeClass|
                                !(exchange_mid(c) == mid && exchange_margs(c) == args_model(
                                    args.0@,
                                )) by {
                                if exchange_mid(c) == mid && exchange_margs(c) == args_model(args.0@) {
                                    lemma_args_model_index(args.0@);
                                    assert(args_model(args.0@)[v@.len() - 1] == arg_model(
                                        args.0@[v@.len() - 1],
                                    ));
                                    assert(false);
                                }
                            }
                        }
                        return None;
                    },
                    Some(x) => x,
                };
                let e2 = match take_short_string(&mut v) {
                    None => {
                        proof {
                            assert(v@.last() == args.0@[v@.len() - 1]);
                            assert forall|c: ExchangeClass|
                                !(exchange_mid(c) == mid && exchange_margs(c) == args_model(
                                    args.0@,
                                )) by {
                                if exchange_mid(c) == mid && exchange_margs(c) == args_model(args.0@) {
                                    lemma_args_model_index(args.0@);
                                    assert(args_model(args.0@)[v@.len() - 1] == arg_model(
                                        args.0@[v@.len() - 1],
                                    ));
                                    assert(false);
                                }
                            }
                        }
                        return None;
                    },
                    Some(x) => x,
                };
                let e1 = match take_short_string(&mut v) {
                    None => {
                        proof {
                            assert(v@.last() == args.0@[v@.len() - 1]);
                            assert forall|c: ExchangeClass|
                                !(exchange_mid(c) == mid && exchange_margs(c) == args_model(
                                    args.0@,
                                )) by {
                                if exchange_mid(c) == mid && exchange_margs(c) == args_model(args.0@) {
                                    lemma_args_model_index(args.0@);
                                    assert(args_model(args.0@)[v@.len() - 1] == arg_model(
                                        args.0@[v@.len() - 1],
                                    ));
                                    assert(false);
                                }
                            }
                        }
                        return None;
                    },
                    Some(x) => x,
                };
                let e0 = match take_short(&mut v) {
                    None => {
                        proof {
                            assert(v@.last() == args.0@[v@.len() - 1]);
                            assert forall|c: ExchangeClass|
                                !(exchange_mid(c) == mid && exchange_margs(c) == args_model(
                                    args.0@,
                                )) by {
                                if exchange_mid(c) == mid && exchange_margs(c) == args_model(args.0@) {
                                    lemma_args_model_index(args.0@);
                                    assert(args_model(args.0@)[v@.len() - 1] == arg_model(
                                        args.0@[v@.len() - 1],
                                    ));
                                    assert(false);
                                }
                            }
                        }
                        return None;
                    },
                    Some(x) => x,
                };
                let g = ExchangeClass::Bind(BindMethod {
                    reserved1: e0,
                    destination: e1,
                    source: e2,
                    routing_key: e3,
                    no_wait: unpack_bit(e4, 0),
                    arguments: e5,
                });
                proof {
                    assert forall|c: ExchangeClass|
                        exchange_mid(c) == mid && exchange_margs(c) == args_model(
                            args.0@,
                        ) implies exchange_margs(g) == exchange_margs(c) by {
                        if let ExchangeClass::Bind(a) = c {
                            lemma_args_model_index(args.0@);
                            assert(forall|i: int| 0 <= i < args.0@.len()
                                ==> #[trigger] exchange_margs(c)[i] == arg_model(args.0@[i]));
                            lemma_bit_packing(a.no_wait, false, false, false, false);
                            assert(exchange_margs(g) =~= exchange_margs(c));
                        }
                    }
                }
                Some(g)
            },
            31 => {
                if v.len() != 0 {
                    proof {
                        assert forall|c: ExchangeClass|
                            !(exchange_mid(c) == mid && exchange_margs(c) == args_model(
                                args.0@,
                            )) by {
                            if exchange_mid(c) == mid && exchange_margs(c) == args_model(args.0@) {
                                lemma_args_model_index(args.0@);
                                assert(forall|i: int| 0 <= i < args.0@.len()
                                    ==> #[trigger] exchange_margs(c)[i] == arg_model(args.0@[i]));
                                assert(false);
                            }
                        }
                    }
                    return None;
                }
                let g = ExchangeClass::BindOk;
                proof {
                    assert(exchange_margs(g) =~= args_model(args.0@));
                }
                Some(g)
            },
            40 => {
                if v.len() != 6 {
                    proof {
                        assert forall|c: ExchangeClass|
                            !(exchange_mid(c) == mid && exchange_margs(c) == args_model(
                                args.0@,
                            )) by {
                            if exchange_mid(c) == mid && exchange_margs(c) == args_model(args.0@) {
                                lemma_args_model_index(args.0@);
                                assert(forall|i: int| 0 <= i < args.0@.len()
                                    ==> #[trigger] exchange_margs(c)[i] == arg_model(args.0@[i]));
                                assert(false);
                            }
                        }
                    }
                    return None;
                }
                let e5 = match take_table(&mut v) {
                    None => {
                        proof {
                            assert(v@.last() == args.0@[v@.len() - 1]);
                            assert forall|c: ExchangeClass|
                                !(exchange_mid(c) == mid && exchange_margs(c) == args_model(
                                    args.0@,
                                )) by {
                                if exchange_mid(c) == mid && exchange_margs(c) == args_model(args.0@) {
                                    lemma_args_model_index(args.0@);
                                    assert(args_model(args.0@)[v@.len() - 1] == arg_model(
                                        args.0@[v@.len() - 1],
                                    ));
                                    assert(false);
                                }
                            }
                        }
                        return None;
                    },
                    Some(x) => x,
                };
                let e4 = match take_bits(&mut v) {
                    None => {
                        proof {
                            assert(v@.last() == args.0@[v@.len() - 1]);
                            assert forall|c: ExchangeClass|
                                !(exchange_mid(c) == mid && exchange_margs(c) == args_model(
                                    args.0@,
                                )) by {
                                if exchange_mid(c) == mid && exchange_margs(c) == args_model(args.0@) {
                                    lemma_args_model_index(args.0@);
                                    assert(args_model(args.0@)[v@.len() - 1] == arg_model(
                                        args.0@[v@.len() - 1],
                                    ));
                                    assert(false);
                                }
                            }
                        }
                        return None;
                    },
                    Some(x) => x,
                };
                let e3 = match take_short_string(&mut v) {
                    None => {
                        proof {
                            assert(v@.last() == args.0@[v@.len() - 1]);
                            assert forall|c: ExchangeClass|
                                !(exchange_mid(c) == mid && exchange_margs(c) == args_model(
                                    args.0@,
                                )) by {
                                if exchange_mid(c) == mid && exchange_margs(c) == args_model(args.0@) {
                                    lemma_args_model_index(args.0@);
                                    assert(args_model(args.0@)[v@.len() - 1] == arg_model(
                                        args.0@[v@.len() - 1],
                                    ));
                                    assert(false);
                                }
                            }
                        }
                        return None;
                    },
                    Some(x) => x,
                };
                let e2 = match take_short_string(&mut v) {
                    None => {
                        proof {
                            assert(v@.last() == args.0@[v@.len() - 1]);
                            assert forall|c: ExchangeClass|
                                !(exchange_mid(c) == mid && exchange_margs(c) == args_model(
                                    args.0@,
                                )) by {
                                if exchange_mid(c) == mid && exchange_margs(c) == args_model(args.0@) {
                                    lemma_args_model_index(args.0@);
                                    assert(args_model(args.0@)[v@.len() - 1] == arg_model(
                                        args.0@[v@.len() - 1],
                                    ));
                                    assert(false);
                                }
                            }
                        }
                        return None;
                    },
                    Some(x) => x,
                };
                let e1 = match take_short_string(&mut v) {
                    None => {
                        proof {
                            assert(v@.last() == args.0@[v@.len() - 1]);
                            assert forall|c: ExchangeClass|
                                !(exchange_mid(c) == mid && exchange_margs(c) == args_model(
                                    args.0@,
                                )) by {
                                if exchange_mid(c) == mid && exchange_margs(c) == args_model(args.0@) {
                                    lemma_args_model_index(args.0@);
                                    assert(args_model(args.0@)[v@.len() - 1] == arg_model(
                                        args.0@[v@.len() - 1],
                                    ));
                                    assert(false);
                                }
                            }
                        }
                        return None;
                    },
                    Some(x) => x,
                };
                let e0 = match take_short(&mut v) {
                    None => {
                        proof {
                            assert(v@.last() == args.0@[v@.len() - 1]);
                            assert forall|c: ExchangeClass|
                                !(exchange_mid(c) == mid && exchange_margs(c) == args_model(
                                    args.0@,
                                )) by {
                                if exchange_mid(c) == mid && exchange_margs(c) == args_model(args.0@) {
                                    lemma_args_model_index(args.0@);
                                    assert(args_model(args.0@)[v@.len() - 1] == arg_model(
                                        args.0@[v@.len() - 1],
                                    ));
                                    assert(false);
                                }
                            }
                        }
                        return None;
                    },
                    Some(x) => x,
                };
                let g = ExchangeClass::Unbind(UnbindMethod {
                    reserved1: e0,
                    destination: e1,
                    source: e2,
                    routing_key: e3,
                    no_wait: unpack_bit(e4, 0),
                    arguments: e5,
                });
                proof {
                    assert forall|c: ExchangeClass|
                        exchange_mid(c) == mid && exchange_margs(c) == args_model(
                            args.0@,
                        ) implies exchange_margs(g) == exchange_margs(c) by {
                        if let ExchangeClass::Unbind(a) = c {
                            lemma_args_model_index(args.0@);
                            assert(forall|i: int| 0 <= i < args.0@.len()
                                ==> #[trigger] exchange_margs(c)[i] == arg_model(args.0@[i]));
                            lemma_bit_packing(a.no_wait, false, false, false, false);
                            assert(exchange_margs(g) =~= exchange_margs(c));
                        }
                    }
                }
                Some(g)
            },
            51 => {
                if v.len() != 0 {
                    proof {
                        assert forall|c: ExchangeClass|
                            !(exchange_mid(c) == mid && exchange_margs(c) == args_model(
                                args.0@,
                            )) by {
                            if exchange_mid(c) == mid && exchange_margs(c) == args_model(args.0@) {
                                lemma_args_model_index(args.0@);
                                assert(forall|i: int| 0 <= i < args.0@.len()
                                    ==> #[trigger] exchange_margs(c)[i] == arg_model(args.0@[i]));
                                assert(false);
                            }
                        }
                    }
                    return None;
                }
                let g = ExchangeClass::UnbindOk;
                proof {
                    assert(exchange_margs(g) =~= args_model(args.0@));
                }
                Some(g)
            },
            _ => None,
        }
    }
}

} // verus!
