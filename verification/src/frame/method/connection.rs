//! Connection class methods (class id 10).

use vstd::prelude::*;

use crate::args::{AmqpString, FieldTable, table_model};
use crate::methods::args::{
    Argument, Arguments, ArgModel, args_model, arg_model, pack_bits1, pack_bits2,
    pack_bits3, pack_bits4, pack_bits5, pack1, pack2, pack3, pack4, pack5, unpack_bit,
    take_octet, take_short, take_long, take_longlong, take_bits, take_short_string,
    take_long_string, take_timestamp, take_table, lemma_bit_packing,
    lemma_args_model_index,
};

verus! {

#[derive(Debug, PartialEq)]
pub enum ConnectionClass {
    Start(StartMethod),
    StartOk(StartOkMethod),
    Secure(SecureMethod),
    SecureOk(SecureOkMethod),
    Tune(TuneMethod),
    TuneOk(TuneOkMethod),
    Open(OpenMethod),
    OpenOk(OpenOkMethod),
    Close(CloseMethod),
    CloseOk,
    Blocked(BlockedMethod),
    Unblocked,
}

#[derive(Debug, PartialEq)]
pub struct StartMethod {
    pub version_major: u8,
    pub version_minor: u8,
    pub server_properties: FieldTable,
    pub mechanisms: AmqpString,
    pub locales: AmqpString,
}

#[derive(Debug, PartialEq)]
pub struct StartOkMethod {
    pub client_properties: FieldTable,
    pub mechanism: AmqpString,
    pub response: AmqpString,
    pub locale: AmqpString,
}

#[derive(Debug, PartialEq)]
pub struct SecureMethod {
    pub challenge: AmqpString,
}

#[derive(Debug, PartialEq)]
pub struct SecureOkMethod {
    pub response: AmqpString,
}

#[derive(Debug, PartialEq)]
pub struct TuneMethod {
    pub channel_max: u16,
    pub frame_max: u32,
    pub heartbeat: u16,
}

#[derive(Debug, PartialEq)]
pub struct TuneOkMethod {
    pub channel_max: u16,
    pub frame_max: u32,
    pub heartbeat: u16,
}

#[derive(Debug, PartialEq)]
pub struct OpenMethod {
    pub virtual_host: AmqpString,
    pub reserved1: AmqpString,
    pub reserved2: bool,
}

#[derive(Debug, PartialEq)]
pub struct OpenOkMethod {
    pub reserved1: AmqpString,
}

#[derive(Debug, PartialEq)]
pub struct CloseMethod {
    pub reply_code: u16,
    pub reply_text: AmqpString,
    pub class_id: u16,
    pub method_id: u16,
}

#[derive(Debug, PartialEq)]
pub struct BlockedMethod {
    pub reason: AmqpString,
}

/// The method id of a connection method.
pub open spec fn connection_mid(c: ConnectionClass) -> u16 {
    match c {
        ConnectionClass::Start(_) => 10,
        ConnectionClass::StartOk(_) => 11,
        ConnectionClass::Secure(_) => 20,
        ConnectionClass::SecureOk(_) => 21,
        ConnectionClass::Tune(_) => 30,
        ConnectionClass::TuneOk(_) => 31,
        ConnectionClass::Open(_) => 40,
        ConnectionClass::OpenOk(_) => 41,
        ConnectionClass::Close(_) => 50,
        ConnectionClass::CloseOk => 51,
        ConnectionClass::Blocked(_) => 60,
        ConnectionClass::Unblocked => 61,
    }
}

/// The argument list a connection method encodes to.
pub open spec fn connection_margs(c: ConnectionClass) -> Seq<ArgModel> {
    match c {
        ConnectionClass::Start(m) => seq![
            ArgModel::Octet(m.version_major),
            ArgModel::Octet(m.version_minor),
            ArgModel::FieldTable(table_model(m.server_properties.0@)),
            ArgModel::LongString(m.mechanisms@),
            ArgModel::LongString(m.locales@),
        ],
        ConnectionClass::StartOk(m) => seq![
            ArgModel::FieldTable(table_model(m.client_properties.0@)),
            ArgModel::ShortString(m.mechanism@),
            ArgModel::LongString(m.response@),
            ArgModel::ShortString(m.locale@),
        ],
        ConnectionClass::Secure(m) => seq![
            ArgModel::LongString(m.challenge@),
        ],
        ConnectionClass::SecureOk(m) => seq![
            ArgModel::LongString(m.response@),
        ],
        ConnectionClass::Tune(m) => seq![
            ArgModel::Short(m.channel_max),
            ArgModel::Long(m.frame_max),
            ArgModel::Short(m.heartbeat),
        ],
        ConnectionClass::TuneOk(m) => seq![
            ArgModel::Short(m.channel_max),
            ArgModel::Long(m.frame_max),
            ArgModel::Short(m.heartbeat),
        ],
        ConnectionClass::Open(m) => seq![
            ArgModel::ShortString(m.virtual_host@),
            ArgModel::ShortString(m.reserved1@),
            ArgModel::Bits(pack_bits1(m.reserved2)),
        ],
        ConnectionClass::OpenOk(m) => seq![
            ArgModel::ShortString(m.reserved1@),
        ],
        ConnectionClass::Close(m) => seq![
            ArgModel::Short(m.reply_code),
            ArgModel::ShortString(m.reply_text@),
            ArgModel::Short(m.class_id),
            ArgModel::Short(m.method_id),
        ],
        ConnectionClass::CloseOk => Seq::empty(),
        ConnectionClass::Blocked(m) => seq![
            ArgModel::ShortString(m.reason@),
        ],
        ConnectionClass::Unblocked => Seq::empty(),
    }
}

impl ConnectionClass {
    pub fn start(&self) -> (r: Option<&StartMethod>)
        ensures
            match r {
                Some(m) => *self == ConnectionClass::Start(*m),
                None => !(*self is Start),
            },
    {
        match self {
            ConnectionClass::Start(m) => Some(m),
            _ => None,
        }
    }

    pub fn start_ok(&self) -> (r: Option<&StartOkMethod>)
        ensures
            match r {
                Some(m) => *self == ConnectionClass::StartOk(*m),
                None => !(*self is StartOk),
            },
    {
        match self {
            ConnectionClass::StartOk(m) => Some(m),
            _ => None,
        }
    }

    pub fn secure(&self) -> (r: Option<&SecureMethod>)
        ensures
            match r {
                Some(m) => *self == ConnectionClass::Secure(*m),
                None => !(*self is Secure),
            },
    {
        match self {
            ConnectionClass::Secure(m) => Some(m),
            _ => None,
        }
    }

    pub fn secure_ok(&self) -> (r: Option<&SecureOkMethod>)
        ensures
            match r {
                Some(m) => *self == ConnectionClass::SecureOk(*m),
                None => !(*self is SecureOk),
            },
    {
        match self {
            ConnectionClass::SecureOk(m) => Some(m),
            _ => None,
        }
    }

    pub fn tune(&self) -> (r: Option<&TuneMethod>)
        ensures
            match r {
                Some(m) => *self == ConnectionClass::Tune(*m),
                None => !(*self is Tune),
            },
    {
        match self {
            ConnectionClass::Tune(m) => Some(m),
            _ => None,
        }
    }

    pub fn tune_ok(&self) -> (r: Option<&TuneOkMethod>)
        ensures
            match r {
                Some(m) => *self == ConnectionClass::TuneOk(*m),
                None => !(*self is TuneOk),
            },
    {
        match self {
            ConnectionClass::TuneOk(m) => Some(m),
            _ => None,
        }
    }

    pub fn open(&self) -> (r: Option<&OpenMethod>)
        ensures
            match r {
                Some(m) => *self == ConnectionClass::Open(*m),
                None => !(*self is Open),
            },
    {
        match self {
            ConnectionClass::Open(m) => Some(m),
            _ => None,
        }
    }

    pub fn open_ok(&self) -> (r: Option<&OpenOkMethod>)
        ensures
            match r {
                Some(m) => *self == ConnectionClass::OpenOk(*m),
                None => !(*self is OpenOk),
            },
    {
        match self {
            ConnectionClass::OpenOk(m) => Some(m),
            _ => None,
        }
    }

    pub fn close(&self) -> (r: Option<&CloseMethod>)
        ensures
            match r {
                Some(m) => *self == ConnectionClass::Close(*m),
                None => !(*self is Close),
            },
    {
        match self {
            ConnectionClass::Close(m) => Some(m),
            _ => None,
        }
    }

    pub fn close_ok(&self) -> (r: Option<()>)
        ensures
            r is Some <==> *self is CloseOk,
    {
        match self {
            ConnectionClass::CloseOk => Some(()),
            _ => None,
        }
    }

    pub fn blocked(&self) -> (r: Option<&BlockedMethod>)
        ensures
            match r {
                Some(m) => *self == ConnectionClass::Blocked(*m),
                None => !(*self is Blocked),
            },
    {
        match self {
            ConnectionClass::Blocked(m) => Some(m),
            _ => None,
        }
    }

    pub fn unblocked(&self) -> (r: Option<()>)
        ensures
            r is Some <==> *self is Unblocked,
    {
        match self {
            ConnectionClass::Unblocked => Some(()),
            _ => None,
        }
    }

    /// Turn the method into its method id and argument list.
    pub fn into_args(self) -> (r: (u16, Arguments))
        ensures
            r.0 == connection_mid(self),
            args_model(r.1.0@) == connection_margs(self),
    {
        let mut v: Vec<Argument> = Vec::new();
        let mid: u16 = match self {
            ConnectionClass::Start(m) => {
                v.push(Argument::Octet(m.version_major));
                v.push(Argument::Octet(m.version_minor));
                v.push(Argument::FieldTable(m.server_properties));
                v.push(Argument::LongString(m.mechanisms));
                v.push(Argument::LongString(m.locales));
                10
            },
            ConnectionClass::StartOk(m) => {
                v.push(Argument::FieldTable(m.client_properties));
                v.push(Argument::ShortString(m.mechanism));
                v.push(Argument::LongString(m.response));
                v.push(Argument::ShortString(m.locale));
                11
            },
            ConnectionClass::Secure(m) => {
                v.push(Argument::LongString(m.challenge));
                20
            },
            ConnectionClass::SecureOk(m) => {
                v.push(Argument::LongString(m.response));
                21
            },
            ConnectionClass::Tune(m) => {
                v.push(Argument::Short(m.channel_max));
                v.push(Argument::Long(m.frame_max));
                v.push(Argument::Short(m.heartbeat));
                30
            },
            ConnectionClass::TuneOk(m) => {
                v.push(Argument::Short(m.channel_max));
                v.push(Argument::Long(m.frame_max));
                v.push(Argument::Short(m.heartbeat));
                31
            },
            ConnectionClass::Open(m) => {
                v.push(Argument::ShortString(m.virtual_host));
                v.push(Argument::ShortString(m.reserved1));
                v.push(Argument::Bits(pack1(m.reserved2)));
                40
            },
            ConnectionClass::OpenOk(m) => {
                v.push(Argument::ShortString(m.reserved1));
                41
            },
            ConnectionClass::Close(m) => {
                v.push(Argument::Short(m.reply_code));
                v.push(Argument::ShortString(m.reply_text));
                v.push(Argument::Short(m.class_id));
                v.push(Argument::Short(m.method_id));
                50
            },
            ConnectionClass::CloseOk => 51,
            ConnectionClass::Blocked(m) => {
                v.push(Argument::ShortString(m.reason));
                60
            },
            ConnectionClass::Unblocked => 61,
        };
        proof {
            assert(args_model(v@) =~= connection_margs(self));
        }
        (mid, Arguments(v))
    }

    /// Rebuild the method from its method id and argument list.  Succeeds on
    /// the argument list of any method of this class with this id.
    #[verifier::rlimit(100)]
    #[verifier::spinoff_prover]
    pub fn from_args(mid: u16, args: Arguments) -> (r: Option<ConnectionClass>)
        ensures
            r matches Some(g) ==> connection_mid(g) == mid,
            forall|c: ConnectionClass|
                connection_mid(c) == mid && connection_margs(c) == args_model(args.0@) ==> (r matches Some(
                    g,
                ) && connection_margs(g) == connection_margs(c)),
    {
        let mut v = args.0;
        match mid {
            10 => {
                if v.len() != 5 {
                    proof {
                        assert forall|c: ConnectionClass|
                            !(connection_mid(c) == mid && connection_margs(c) == args_model(
                                args.0@,
                            )) by {
                            if connection_mid(c) == mid && connection_margs(c) == args_model(args.0@) {
                                lemma_args_model_index(args.0@);
                                assert(forall|i: int| 0 <= i < args.0@.len()
                                    ==> #[trigger] connection_margs(c)[i] == arg_model(args.0@[i]));
                                assert(false);
                            }
                        }
                    }
                    return None;
                }
                let e4 = match take_long_string(&mut v) {
                    None => {
                        proof {
                            assert(v@.last() == args.0@[v@.len() - 1]);
                            assert forall|c: ConnectionClass|
                                !(connection_mid(c) == mid && connection_margs(c) == args_model(
                                    args.0@,
                                )) by {
                                if connection_mid(c) == mid && connection_margs(c) == args_model(args.0@) {
                                    lemma_args_model_index(args.0@);
                                    assert(args_model(args.0@)[v@.len() - 1] == arg_model(
                                        args.0@[v@.len() - 1],
                                    ));
                                    assert(false);
                                }
                            }
                        }
                        return None;
                    },
                    Some(x) => x,
                };
                let e3 = match take_long_string(&mut v) {
                    None => {
                        proof {
                            assert(v@.last() == args.0@[v@.len() - 1]);
                            assert forall|c: ConnectionClass|
                                !(connection_mid(c) == mid && connection_margs(c) == args_model(
                                    args.0@,
                                )) by {
                                if connection_mid(c) == mid && connection_margs(c) == args_model(args.0@) {
                                    lemma_args_model_index(args.0@);
                                    assert(args_model(args.0@)[v@.len() - 1] == arg_model(
                                        args.0@[v@.len() - 1],
                                    ));
                                    assert(false);
                                }
                            }
                        }
                        return None;
                    },
                    Some(x) => x,
                };
                let e2 = match take_table(&mut v) {
                    None => {
                        proof {
                            assert(v@.last() == args.0@[v@.len() - 1]);
                            assert forall|c: ConnectionClass|
                                !(connection_mid(c) == mid && connection_margs(c) == args_model(
                                    args.0@,
                                )) by {
                                if connection_mid(c) == mid && connection_margs(c) == args_model(args.0@) {
                                    lemma_args_model_index(args.0@);
                                    assert(args_model(args.0@)[v@.len() - 1] == arg_model(
                                        args.0@[v@.len() - 1],
                                    ));
                                    assert(false);
                                }
                            }
                        }
                        return None;
                    },
                    Some(x) => x,
                };
                let e1 = match take_octet(&mut v) {
                    None => {
                        proof {
                            assert(v@.last() == args.0@[v@.len() - 1]);
                            assert forall|c: ConnectionClass|
                                !(connection_mid(c) == mid && connection_margs(c) == args_model(
                                    args.0@,
                                )) by {
                                if connection_mid(c) == mid && connection_margs(c) == args_model(args.0@) {
                                    lemma_args_model_index(args.0@);
                                    assert(args_model(args.0@)[v@.len() - 1] == arg_model(
                                        args.0@[v@.len() - 1],
                                    ));
                                    assert(false);
                                }
                            }
                        }
                        return None;
                    },
                    Some(x) => x,
                };
                let e0 = match take_octet(&mut v) {
                    None => {
                        proof {
                            assert(v@.last() == args.0@[v@.len() - 1]);
                            assert forall|c: ConnectionClass|
                                !(connection_mid(c) == mid && connection_margs(c) == args_model(
                                    args.0@,
                                )) by {
                                if connection_mid(c) == mid && connection_margs(c) == args_model(args.0@) {
                                    lemma_args_model_index(args.0@);
                                    assert(args_model(args.0@)[v@.len() - 1] == arg_model(
                                        args.0@[v@.len() - 1],
                                    ));
                                    assert(false);
                                }
                            }
                        }
                        return None;
                    },
                    Some(x) => x,
                };
                let g = ConnectionClass::Start(StartMethod {
                    version_major: e0,
                    version_minor: e1,
                    server_properties: e2,
                    mechanisms: e3,
                    locales: e4,
                });
                proof {
                    assert(connection_margs(g) =~= args_model(args.0@));
                }
                Some(g)
            },
            11 => {
                if v.len() != 4 {
                    proof {
                        assert forall|c: ConnectionClass|
                            !(connection_mid(c) == mid && connection_margs(c) == args_model(
                                args.0@,
                            )) by {
                            if connection_mid(c) == mid && connection_margs(c) == args_model(args.0@) {
                                lemma_args_model_index(args.0@);
                                assert(forall|i: int| 0 <= i < args.0@.len()
                                    ==> #[trigger] connection_margs(c)[i] == arg_model(args.0@[i]));
                                assert(false);
                            }
                        }
                    }
                    return None;
                }
                let e3 = match take_short_string(&mut v) {
                    None => {
                        proof {
                            assert(v@.last() == args.0@[v@.len() - 1]);
                            assert forall|c: ConnectionClass|
                                !(connection_mid(c) == mid && connection_margs(c) == args_model(
                                    args.0@,
                                )) by {
                                if connection_mid(c) == mid && connection_margs(c) == args_model(args.0@) {
                                    lemma_args_model_index(args.0@);
                                    assert(args_model(args.0@)[v@.len() - 1] == arg_model(
                                        args.0@[v@.len() - 1],
                                    ));
                                    assert(false);
                                }
                            }
                        }
                        return None;
                    },
                    Some(x) => x,
                };
                let e2 = match take_long_string(&mut v) {
                    None => {
                        proof {
                            assert(v@.last() == args.0@[v@.len() - 1]);
                            assert forall|c: ConnectionClass|
                                !(connection_mid(c) == mid && connection_margs(c) == args_model(
                                    args.0@,
                                )) by {
                                if connection_mid(c) == mid && connection_margs(c) == args_model(args.0@) {
                                    lemma_args_model_index(args.0@);
                                    assert(args_model(args.0@)[v@.len() - 1] == arg_model(
                                        args.0@[v@.len() - 1],
                                    ));
                                    assert(false);
                                }
                            }
                        }
                        return None;
                    },
                    Some(x) => x,
                };
                let e1 = match take_short_string(&mut v) {
                    None => {
                        proof {
                            assert(v@.last() == args.0@[v@.len() - 1]);
                            assert forall|c: ConnectionClass|
                                !(connection_mid(c) == mid && connection_margs(c) == args_model(
                                    args.0@,
                                )) by {
                                if connection_mid(c) == mid && connection_margs(c) == args_model(args.0@) {
                                    lemma_args_model_index(args.0@);
                                    assert(args_model(args.0@)[v@.len() - 1] == arg_model(
                                        args.0@[v@.len() - 1],
                                    ));
                                    assert(false);
                                }
                            }
                        }
                        return None;
                    },
                    Some(x) => x,
                };
                let e0 = match take_table(&mut v) {
                    None => {
                        proof {
                            assert(v@.last() == args.0@[v@.len() - 1]);
                            assert forall|c: ConnectionClass|
                                !(connection_mid(c) == mid && connection_margs(c) == args_model(
                                    args.0@,
                                )) by {
                                if connection_mid(c) == mid && connection_margs(c) == args_model(args.0@) {
                                    lemma_args_model_index(args.0@);
                                    assert(args_model(args.0@)[v@.len() - 1] == arg_model(
                                        args.0@[v@.len() - 1],
                                    ));
                                    assert(false);
                                }
                            }
                        }
                        return None;
                    },
                    Some(x) => x,
                };
                let g = ConnectionClass::StartOk(StartOkMethod {
                    client_properties: e0,
                    mechanism: e1,
                    response: e2,
                    locale: e3,
                });
                proof {
                    assert(connection_margs(g) =~= args_model(args.0@));
                }
                Some(g)
            },
            20 => {
                if v.len() != 1 {
                    proof {
                        assert forall|c: ConnectionClass|
                            !(connection_mid(c) == mid && connection_margs(c) == args_model(
                                args.0@,
                            )) by {
                            if connection_mid(c) == mid && connection_margs(c) == args_model(args.0@) {
                                lemma_args_model_index(args.0@);
                                assert(forall|i: int| 0 <= i < args.0@.len()
                                    ==> #[trigger] connection_margs(c)[i] == arg_model(args.0@[i]));
                                assert(false);
                            }
                        }
                    }
                    return None;
                }
                let e0 = match take_long_string(&mut v) {
                    None => {
                        proof {
                            assert(v@.last() == args.0@[v@.len() - 1]);
                            assert forall|c: ConnectionClass|
                                !(connection_mid(c) == mid && connection_margs(c) == args_model(
                                    args.0@,
                                )) by {
                                if connection_mid(c) == mid && connection_margs(c) == args_model(args.0@) {
                                    lemma_args_model_index(args.0@);
                                    assert(args_model(args.0@)[v@.len() - 1] == arg_model(
                                        args.0@[v@.len() - 1],
                                    ));
                                    assert(false);
                                }
                            }
                        }
                        return None;
                    },
                    Some(x) => x,
                };
                let g = ConnectionClass::Secure(SecureMethod {
                    challenge: e0,
                });
                proof {
                    assert(connection_margs(g) =~= args_model(args.0@));
                }
                Some(g)
            },
            21 => {
                if v.len() != 1 {
                    proof {
                        assert forall|c: ConnectionClass|
                            !(connection_mid(c) == mid && connection_margs(c) == args_model(
                                args.0@,
                            )) by {
                            if connection_mid(c) == mid && connection_margs(c) == args_model(args.0@) {
                                lemma_args_model_index(args.0@);
                                assert(forall|i: int| 0 <= i < args.0@.len()
                                    ==> #[trigger] connection_margs(c)[i] == arg_model(args.0@[i]));
                                assert(false);
                            }
                        }
                    }
                    return None;
                }
                let e0 = match take_long_string(&mut v) {
                    None => {
                        proof {
                            assert(v@.last() == args.0@[v@.len() - 1]);
                            assert forall|c: ConnectionClass|
                                !(connection_mid(c) == mid && connection_margs(c) == args_model(
                                    args.0@,
                                )) by {
                                if connection_mid(c) == mid && connection_margs(c) == args_model(args.0@) {
                                    lemma_args_model_index(args.0@);
                                    assert(args_model(args.0@)[v@.len() - 1] == arg_model(
                                        args.0@[v@.len() - 1],
                                    ));
                                    assert(false);
                                }
                            }
                        }
                        return None;
                    },
                    Some(x) => x,
                };
                let g = ConnectionClass::SecureOk(SecureOkMethod {
                    response: e0,
                });
                proof {
                    assert(connection_margs(g) =~= args_model(args.0@));
                }
                Some(g)
            },
            30 => {
                if v.len() != 3 {
                    proof {
                        assert forall|c: ConnectionClass|
                            !(connection_mid(c) == mid && connection_margs(c) == args_model(
                                args.0@,
                            )) by {
                            if connection_mid(c) == mid && connection_margs(c) == args_model(args.0@) {
                                lemma_args_model_index(args.0@);
                                assert(forall|i: int| 0 <= i < args.0@.len()
                                    ==> #[trigger] connection_margs(c)[i] == arg_model(args.0@[i]));
                                assert(false);
                            }
                        }
                    }
                    return None;
                }
                let e2 = match take_short(&mut v) {
                    None => {
                        proof {
                            assert(v@.last() == args.0@[v@.len() - 1]);
                            assert forall|c: ConnectionClass|
                                !(connection_mid(c) == mid && connection_margs(c) == args_model(
                                    args.0@,
                                )) by {
                                if connection_mid(c) == mid && connection_margs(c) == args_model(args.0@) {
                                    lemma_args_model_index(args.0@);
                                    assert(args_model(args.0@)[v@.len() - 1] == arg_model(
                                        args.0@[v@.len() - 1],
                                    ));
                                    assert(false);
                                }
                            }
                        }
                        return None;
                    },
                    Some(x) => x,
                };
                let e1 = match take_long(&mut v) {
                    None => {
                        proof {
                            assert(v@.last() == args.0@[v@.len() - 1]);
                            assert forall|c: ConnectionClass|
                                !(connection_mid(c) == mid && connection_margs(c) == args_model(
                                    args.0@,
                                )) by {
                                if connection_mid(c) == mid && connection_margs(c) == args_model(args.0@) {
                                    lemma_args_model_index(args.0@);
                                    assert(args_model(args.0@)[v@.len() - 1] == arg_model(
                                        args.0@[v@.len() - 1],
                                    ));
                                    assert(false);
                                }
                            }
                        }
                        return None;
                    },
                    Some(x) => x,
                };
                let e0 = match take_short(&mut v) {
                    None => {
                        proof {
                            assert(v@.last() == args.0@[v@.len() - 1]);
                            assert forall|c: ConnectionClass|
                                !(connection_mid(c) == mid && connection_margs(c) == args_model(
                                    args.0@,
                                )) by {
                                if connection_mid(c) == mid && connection_margs(c) == args_model(args.0@) {
                                    lemma_args_model_index(args.0@);
                                    assert(args_model(args.0@)[v@.len() - 1] == arg_model(
                                        args.0@[v@.len() - 1],
                                    ));
                                    assert(false);
                                }
                            }
                        }
                        return None;
                    },
                    Some(x) => x,
                };
                let g = ConnectionClass::Tune(TuneMethod {
                    channel_max: e0,
                    frame_max: e1,
                    heartbeat: e2,
                });
                proof {
                    assert(connection_margs(g) =~= args_model(args.0@));
                }
                Some(g)
            },
            31 => {
                if v.len() != 3 {
                    proof {
                        assert forall|c: ConnectionClass|
                            !(connection_mid(c) == mid && connection_margs(c) == args_model(
                                args.0@,
                            )) by {
                            if connection_mid(c) == mid && connection_margs(c) == args_model(args.0@) {
                                lemma_args_model_index(args.0@);
                                assert(forall|i: int| 0 <= i < args.0@.len()
                                    ==> #[trigger] connection_margs(c)[i] == arg_model(args.0@[i]));
                                assert(false);
                            }
                        }
                    }
                    return None;
                }
                let e2 = match take_short(&mut v) {
                    None => {
                        proof {
                            assert(v@.last() == args.0@[v@.len() - 1]);
                            assert forall|c: ConnectionClass|
                                !(connection_mid(c) == mid && connection_margs(c) == args_model(
                                    args.0@,
                                )) by {
                                if connection_mid(c) == mid && connection_margs(c) == args_model(args.0@) {
                                    lemma_args_model_index(args.0@);
                                    assert(args_model(args.0@)[v@.len() - 1] == arg_model(
                                        args.0@[v@.len() - 1],
                                    ));
                                    assert(false);
                                }
                            }
                        }
                        return None;
                    },
                    Some(x) => x,
                };
                let e1 = match take_long(&mut v) {
                    None => {
                        proof {
                            assert(v@.last() == args.0@[v@.len() - 1]);
                            assert forall|c: ConnectionClass|
                                !(connection_mid(c) == mid && connection_margs(c) == args_model(
                                    args.0@,
                                )) by {
                                if connection_mid(c) == mid && connection_margs(c) == args_model(args.0@) {
                                    lemma_args_model_index(args.0@);
                                    assert(args_model(args.0@)[v@.len() - 1] == arg_model(
                                        args.0@[v@.len() - 1],
                                    ));
                                    assert(false);
                                }
                            }
                        }
                        return None;
                    },
                    Some(x) => x,
                };
                let e0 = match take_short(&mut v) {
                    None => {
                        proof {
                            assert(v@.last() == args.0@[v@.len() - 1]);
                            assert forall|c: ConnectionClass|
                                !(connection_mid(c) == mid && connection_margs(c) == args_model(
                                    args.0@,
                                )) by {
                                if connection_mid(c) == mid && connection_margs(c) == args_model(args.0@) {
                                    lemma_args_model_index(args.0@);
                                    assert(args_model(args.0@)[v@.len() - 1] == arg_model(
                                        args.0@[v@.len() - 1],
                                    ));
                                    assert(false);
                                }
                            }
                        }
                        return None;
                    },
                    Some(x) => x,
                };
                let g = ConnectionClass::TuneOk(TuneOkMethod {
                    channel_max: e0,
                    frame_max: e1,
                    heartbeat: e2,
                });
                proof {
                    assert(connection_margs(g) =~= args_model(args.0@));
                }
                Some(g)
            },
            40 => {
                if v.len() != 3 {
                    proof {
                        assert forall|c: ConnectionClass|
                            !(connection_mid(c) == mid && connection_margs(c) == args_model(
                                args.0@,
                            )) by {
                            if connection_mid(c) == mid && connection_margs(c) == args_model(args.0@) {
                                lemma_args_model_index(args.0@);
                                assert(forall|i: int| 0 <= i < args.0@.len()
                                    ==> #[trigger] connection_margs(c)[i] == arg_model(args.0@[i]));
                                assert(false);
                            }
                        }
                    }
                    return None;
                }
                let e2 = match take_bits(&mut v) {
                    None => {
                        proof {
                            assert(v@.last() == args.0@[v@.len() - 1]);
                            assert forall|c: ConnectionClass|
                                !(connection_mid(c) == mid && connection_margs(c) == args_model(
                                    args.0@,
                                )) by {
                                if connection_mid(c) == mid && connection_margs(c) == args_model(args.0@) {
                                    lemma_args_model_index(args.0@);
                                    assert(args_model(args.0@)[v@.len() - 1] == arg_model(
                                        args.0@[v@.len() - 1],
                                    ));
                                    assert(false);
                                }
                            }
                        }
                        return None;
                    },
                    Some(x) => x,
                };
                let e1 = match take_short_string(&mut v) {
                    None => {
                        proof {
                            assert(v@.last() == args.0@[v@.len() - 1]);
                            assert forall|c: ConnectionClass|
                                !(connection_mid(c) == mid && connection_margs(c) == args_model(
                                    args.0@,
                                )) by {
                                if connection_mid(c) == mid && connection_margs(c) == args_model(args.0@) {
                                    lemma_args_model_index(args.0@);
                                    assert(args_model(args.0@)[v@.len() - 1] == arg_model(
                                        args.0@[v@.len() - 1],
                                    ));
                                    assert(false);
                                }
                            }
                        }
                        return None;
                    },
                    Some(x) => x,
                };
                let e0 = match take_short_string(&mut v) {
                    None => {
                        proof {
                            assert(v@.last() == args.0@[v@.len() - 1]);
                            assert forall|c: ConnectionClass|
                                !(connection_mid(c) == mid && connection_margs(c) == args_model(
                                    args.0@,
                                )) by {
                                if connection_mid(c) == mid && connection_margs(c) == args_model(args.0@) {
                                    lemma_args_model_index(args.0@);
                                    assert(args_model(args.0@)[v@.len() - 1] == arg_model(
                                        args.0@[v@.len() - 1],
                                    ));
                                    assert(false);
                                }
                            }
                        }
                        return None;
                    },
                    Some(x) => x,
                };
                let g = ConnectionClass::Open(OpenMethod {
                    virtual_host: e0,
                    reserved1: e1,
                    reserved2: unpack_bit(e2, 0),
                });
                proof {
                    assert forall|c: ConnectionClass|
                        connection_mid(c) == mid && connection_margs(c) == args_model(
                            args.0@,
                        ) implies connection_margs(g) == connection_margs(c) by {
                        if let ConnectionClass::Open(a) = c {
                            lemma_args_model_index(args.0@);
                            assert(forall|i: int| 0 <= i < args.0@.len()
                                ==> #[trigger] connection_margs(c)[i] == arg_model(args.0@[i]));
                            lemma_bit_packing(a.reserved2, false, false, false, false);
                            assert(connection_margs(g) =~= connection_margs(c));
                        }
                    }
                }
                Some(g)
            },
            41 => {
                if v.len() != 1 {
                    proof {
                        assert forall|c: ConnectionClass|
                            !(connection_mid(c) == mid && connection_margs(c) == args_model(
                                args.0@,
                            )) by {
                            if connection_mid(c) == mid && connection_margs(c) == args_model(args.0@) {
                                lemma_args_model_index(args.0@);
                                assert(forall|i: int| 0 <= i < args.0@.len()
                                    ==> #[trigger] connection_margs(c)[i] == arg_model(args.0@[i]));
                                assert(false);
                            }
                        }
                    }
                    return None;
                }
                let e0 = match take_short_string(&mut v) {
                    None => {
                        proof {
                            assert(v@.last() == args.0@[v@.len() - 1]);
                            assert forall|c: ConnectionClass|
                                !(connection_mid(c) == mid && connection_margs(c) == args_model(
                                    args.0@,
                                )) by {
                                if connection_mid(c) == mid && connection_margs(c) == args_model(args.0@) {
                                    lemma_args_model_index(args.0@);
                                    assert(args_model(args.0@)[v@.len() - 1] == arg_model(
                                        args.0@[v@.len() - 1],
                                    ));
                                    assert(false);
                                }
                            }
                        }
                        return None;
                    },
                    Some(x) => x,
                };
                let g = ConnectionClass::OpenOk(OpenOkMethod {
                    reserved1: e0,
                });
                proof {
                    assert(connection_margs(g) =~= args_model(args.0@));
                }
                Some(g)
            },
            50 => {
                if v.len() != 4 {
                    proof {
                        assert forall|c: ConnectionClass|
                            !(connection_mid(c) == mid && connection_margs(c) == args_model(
                                args.0@,
                            )) by {
                            if connection_mid(c) == mid && connection_margs(c) == args_model(args.0@) {
                                lemma_args_model_index(args.0@);
                                assert(forall|i: int| 0 <= i < args.0@.len()
                                    ==> #[trigger] connection_margs(c)[i] == arg_model(args.0@[i]));
                                assert(false);
                            }
                        }
                    }
                    return None;
                }
                let e3 = match take_short(&mut v) {
                    None => {
                        proof {
                            assert(v@.last() == args.0@[v@.len() - 1]);
                            assert forall|c: ConnectionClass|
                                !(connection_mid(c) == mid && connection_margs(c) == args_model(
                                    args.0@,
                                )) by {
                                if connection_mid(c) == mid && connection_margs(c) == args_model(args.0@) {
                                    lemma_args_model_index(args.0@);
                                    assert(args_model(args.0@)[v@.len() - 1] == arg_model(
                                        args.0@[v@.len() - 1],
                                    ));
                                    assert(false);
                                }
                            }
                        }
                        return None;
                    },
                    Some(x) => x,
                };
                let e2 = match take_short(&mut v) {
                    None => {
                        proof {
                            assert(v@.last() == args.0@[v@.len() - 1]);
                            assert forall|c: ConnectionClass|
                                !(connection_mid(c) == mid && connection_margs(c) == args_model(
                                    args.0@,
                                )) by {
                                if connection_mid(c) == mid && connection_margs(c) == args_model(args.0@) {
                                    lemma_args_model_index(args.0@);
                                    assert(args_model(args.0@)[v@.len() - 1] == arg_model(
                                        args.0@[v@.len() - 1],
                                    ));
                                    assert(false);
                                }
                            }
                        }
                        return None;
                    },
                    Some(x) => x,
                };
                let e1 = match take_short_string(&mut v) {
                    None => {
                        proof {
                            assert(v@.last() == args.0@[v@.len() - 1]);
                            assert forall|c: ConnectionClass|
                                !(connection_mid(c) == mid && connection_margs(c) == args_model(
                                    args.0@,
                                )) by {
                                if connection_mid(c) == mid && connection_margs(c) == args_model(args.0@) {
                                    lemma_args_model_index(args.0@);
                                    assert(args_model(args.0@)[v@.len() - 1] == arg_model(
                                        args.0@[v@.len() - 1],
                                    ));
                                    assert(false);
                                }
                            }
                        }
                        return None;
                    },
                    Some(x) => x,
                };
                let e0 = match take_short(&mut v) {
                    None => {
                        proof {
                            assert(v@.last() == args.0@[v@.len() - 1]);
                            assert forall|c: ConnectionClass|
                                !(connection_mid(c) == mid && connection_margs(c) == args_model(
                                    args.0@,
                                )) by {
                                if connection_mid(c) == mid && connection_margs(c) == args_model(args.0@) {
                                    lemma_args_model_index(args.0@);
                                    assert(args_model(args.0@)[v@.len() - 1] == arg_model(
                                        args.0@[v@.len() - 1],
                                    ));
                                    assert(false);
                                }
                            }
                        }
                        return None;
                    },
                    Some(x) => x,
                };
                let g = ConnectionClass::Close(CloseMethod {
                    reply_code: e0,
                    reply_text: e1,
                    class_id: e2,
                    method_id: e3,
                });
                proof {
                    assert(connection_margs(g) =~= args_model(args.0@));
                }
                Some(g)
            },
            51 => {
                if v.len() != 0 {
                    proof {
                        assert forall|c: ConnectionClass|
                            !(connection_mid(c) == mid && connection_margs(c) == args_model(
                                args.0@,
                            )) by {
                            if connection_mid(c) == mid && connection_margs(c) == args_model(args.0@) {
                                lemma_args_model_index(args.0@);
                                assert(forall|i: int| 0 <= i < args.0@.len()
                                    ==> #[trigger] connection_margs(c)[i] == arg_model(args.0@[i]));
                                assert(false);
                            }
                        }
                    }
                    return None;
                }
                let g = ConnectionClass::CloseOk;
                proof {
                    assert(connection_margs(g) =~= args_model(args.0@));
                }
                Some(g)
            },
            60 => {
                if v.len() != 1 {
                    proof {
                        assert forall|c: ConnectionClass|
                            !(connection_mid(c) == mid && connection_margs(c) == args_model(
                                args.0@,
                            )) by {
                            if connection_mid(c) == mid && connection_margs(c) == args_model(args.0@) {
                                lemma_args_model_index(args.0@);
                                assert(forall|i: int| 0 <= i < args.0@.len()
                                    ==> #[trigger] connection_margs(c)[i] == arg_model(args.0@[i]));
                                assert(false);
                            }
                        }
                    }
                    return None;
                }
                let e0 = match take_short_string(&mut v) {
                    None => {
                        proof {
                            assert(v@.last() == args.0@[v@.len() - 1]);
                            assert forall|c: ConnectionClass|
                                !(connection_mid(c) == mid && connection_margs(c) == args_model(
                                    args.0@,
                                )) by {
                                if connection_mid(c) == mid && connection_margs(c) == args_model(args.0@) {
                                    lemma_args_model_index(args.0@);
                                    assert(args_model(args.0@)[v@.len() - 1] == arg_model(
                                        args.0@[v@.len() - 1],
                                    ));
                                    assert(false);
                                }
                            }
                        }
                        return None;
                    },
                    Some(x) => x,
                };
                let g = ConnectionClass::Blocked(BlockedMethod {
                    reason: e0,
                });
                proof {
                    assert(connection_margs(g) =~= args_model(args.0@));
                }
                Some(g)
            },
            61 => {
                if v.len() != 0 {
                    proof {
                        assert forall|c: ConnectionClass|
                            !(connection_mid(c) == mid && connection_margs(c) == args_model(
                                args.0@,
                            )) by {
                            if connection_mid(c) == mid && connection_margs(c) == args_model(args.0@) {
                                lemma_args_model_index(args.0@);
                                assert(forall|i: int| 0 <= i < args.0@.len()
                                    ==> #[trigger] connection_margs(c)[i] == arg_model(args.0@[i]));
                                assert(false);
                            }
                        }
                    }
                    return None;
                }
                let g = ConnectionClass::Unblocked;
                proof {
                    assert(connection_margs(g) =~= args_model(args.0@));
                }
                Some(g)
            },
            _ => None,
        }
    }
}

} // verus!
