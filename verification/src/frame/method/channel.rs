//! Channel class methods (class id 20).

use vstd::prelude::*;

use crate::args::{AmqpString, FieldTable, table_model};
use crate::methods::args::{
    Argument, Arguments, ArgModel, args_model, arg_model, pack_bits1, pack_bits2,
    pack_bits3, pack_bits4, pack_bits5, pack1, pack2, pack3, pack4, pack5, unpack_bit,
    take_octet, take_short, take_long, take_longlong, take_bits, take_short_string,
    take_long_string, take_timestamp, take_table, lemma_bit_packing,
    lemma_args_model_index,
};

verus! {

#[derive(Debug, PartialEq)]
pub enum ChannelClass {
    Open(OpenMethod),
    OpenOk(OpenOkMethod),
    Flow(FlowMethod),
    FlowOk(FlowOkMethod),
    Close(CloseMethod),
    CloseOk,
}

#[derive(Debug, PartialEq)]
pub struct OpenMethod {
    pub reserved1: AmqpString,
}

#[derive(Debug, PartialEq)]
pub struct OpenOkMethod {
    pub reserved1: AmqpString,
}

#[derive(Debug, PartialEq)]
pub struct FlowMethod {
    pub active: bool,
}

#[derive(Debug, PartialEq)]
pub struct FlowOkMethod {
    pub active: bool,
}

#[derive(Debug, PartialEq)]
pub struct CloseMethod {
    pub reply_code: u16,
    pub reply_text: AmqpString,
    pub class_id: u16,
    pub method_id: u16,
}

/// The method id of a channel method.
pub open spec fn channel_mid(c: ChannelClass) -> u16 {
    match c {
        ChannelClass::Open(_) => 10,
        ChannelClass::OpenOk(_) => 11,
        ChannelClass::Flow(_) => 20,
        ChannelClass::FlowOk(_) => 21,
        ChannelClass::Close(_) => 40,
        ChannelClass::CloseOk => 41,
    }
}

/// The argument list a channel method encodes to.
pub open spec fn channel_margs(c: ChannelClass) -> Seq<ArgModel> {
    match c {
        ChannelClass::Open(m) => seq![
            ArgModel::ShortString(m.reserved1@),
        ],
        ChannelClass::OpenOk(m) => seq![
            ArgModel::LongString(m.reserved1@),
        ],
        ChannelClass::Flow(m) => seq![
            ArgModel::Bits(pack_bits1(m.active)),
        ],
        ChannelClass::FlowOk(m) => seq![
            ArgModel::Bits(pack_bits1(m.active)),
        ],
        ChannelClass::Close(m) => seq![
            ArgModel::Short(m.reply_code),
            ArgModel::ShortString(m.reply_text@),
            ArgModel::Short(m.class_id),
            ArgModel::Short(m.method_id),
        ],
        ChannelClass::CloseOk => Seq::empty(),
    }
}

impl ChannelClass {
    pub fn open(&self) -> (r: Option<&OpenMethod>)
        ensures
            match r {
                Some(m) => *self == ChannelClass::Open(*m),
                None => !(*self is Open),
            },
    {
        match self {
            ChannelClass::Open(m) => Some(m),
            _ => None,
        }
    }

    pub fn open_ok(&self) -> (r: Option<&OpenOkMethod>)
        ensures
            match r {
                Some(m) => *self == ChannelClass::OpenOk(*m),
                None => !(*self is OpenOk),
            },
    {
        match self {
            ChannelClass::OpenOk(m) => Some(m),
            _ => None,
        }
    }

    pub fn flow(&self) -> (r: Option<&FlowMethod>)
        ensures
            match r {
                Some(m) => *self == ChannelClass::Flow(*m),
                None => !(*self is Flow),
            },
    {
        match self {
            ChannelClass::Flow(m) => Some(m),
            _ => None,
        }
    }

    pub fn flow_ok(&self) -> (r: Option<&FlowOkMethod>)
        ensures
            match r {
                Some(m) => *self == ChannelClass::FlowOk(*m),
                None => !(*self is FlowOk),
            },
    {
        match self {
            ChannelClass::FlowOk(m) => Some(m),
            _ => None,
        }
    }

    pub fn close(&self) -> (r: Option<&CloseMethod>)
        ensures
            match r {
                Some(m) => *self == ChannelClass::Close(*m),
                None => !(*self is Close),
            },
    {
        match self {
            ChannelClass::Close(m) => Some(m),
            _ => None,
        }
    }

    pub fn close_ok(&self) -> (r: Option<()>)
        ensures
            r is Some <==> *self is CloseOk,
    {
        match self {
            ChannelClass::CloseOk => Some(()),
            _ => None,
        }
    }

    /// Turn the method into its method id and argument list.
    pub fn into_args(self) -> (r: (u16, Arguments))
        ensures
            r.0 == channel_mid(self),
            args_model(r.1.0@) == channel_margs(self),
    {
        let mut v: Vec<Argument> = Vec::new();
        let mid: u16 = match self {
            ChannelClass::Open(m) => {
                v.push(Argument::ShortString(m.reserved1));
                10
            },
            ChannelClass::OpenOk(m) => {
                v.push(Argument::LongString(m.reserved1));
                11
            },
            ChannelClass::Flow(m) => {
                v.push(Argument::Bits(pack1(m.active)));
                20
            },
            ChannelClass::FlowOk(m) => {
                v.push(Argument::Bits(pack1(m.active)));
                21
            },
            ChannelClass::Close(m) => {
                v.push(Argument::Short(m.reply_code));
                v.push(Argument::ShortString(m.reply_text));
                v.push(Argument::Short(m.class_id));
                v.push(Argument::Short(m.method_id));
                40
            },
            ChannelClass::CloseOk => 41,
        };
        proof {
            assert(args_model(v@) =~= channel_margs(self));
        }
        (mid, Arguments(v))
    }

    /// Rebuild the method from its method id and argument list.  Succeeds on
    /// the argument list of any method of this class with this id.
    #[verifier::rlimit(100)]
    #[verifier::spinoff_prover]
    pub fn from_args(mid: u16, args: Arguments) -> (r: Option<ChannelClass>)
        ensures
            r matches Some(g) ==> channel_mid(g) == mid,
            forall|c: ChannelClass|
                channel_mid(c) == mid && channel_margs(c) == args_model(args.0@) ==> (r matches Some(
                    g,
                ) && channel_margs(g) == channel_margs(c)),
    {
        let mut v = args.0;
        match mid {
            10 => {
                if v.len() != 1 {
                    proof {
                        assert forall|c: ChannelClass|
                            !(channel_mid(c) == mid && channel_margs(c) == args_model(
                                args.0@,
                            )) by {
                            if channel_mid(c) == mid && channel_margs(c) == args_model(args.0@) {
                                lemma_args_model_index(args.0@);
                                assert(forall|i: int| 0 <= i < args.0@.len()
                                    ==> #[trigger] channel_margs(c)[i] == arg_model(args.0@[i]));
                                assert(false);
                            }
                        }
                    }
                    return None;
                }
                let e0 = match take_short_string(&mut v) {
                    None => {
                        proof {
                            assert(v@.last() == args.0@[v@.len() - 1]);
                            assert forall|c: ChannelClass|
                                !(channel_mid(c) == mid && channel_margs(c) == args_model(
                                    args.0@,
                                )) by {
                                if channel_mid(c) == mid && channel_margs(c) == args_model(args.0@) {
                                    lemma_args_model_index(args.0@);
                                    assert(args_model(args.0@)[v@.len() - 1] == arg_model(
                                        args.0@[v@.len() - 1],
                                    ));
                                    assert(false);
                                }
                            }
                        }
                        return None;
                    },
                    Some(x) => x,
                };
                let g = ChannelClass::Open(OpenMethod {
                    reserved1: e0,
                });
                proof {
                    assert(channel_margs(g) =~= args_model(args.0@));
                }
                Some(g)
            },
            11 => {
                if v.len() != 1 {
                    proof {
                        assert forall|c: ChannelClass|
                            !(channel_mid(c) == mid && channel_margs(c) == args_model(
                                args.0@,
                            )) by {
                            if channel_mid(c) == mid && channel_margs(c) == args_model(args.0@) {
                                lemma_args_model_index(args.0@);
                                assert(forall|i: int| 0 <= i < args.0@.len()
                                    ==> #[trigger] channel_margs(c)[i] == arg_model(args.0@[i]));
                                assert(false);
                            }
                        }
                    }
                    return None;
                }
                let e0 = match take_long_string(&mut v) {
                    None => {
                        proof {
                            assert(v@.last() == args.0@[v@.len() - 1]);
                            assert forall|c: ChannelClass|
                                !(channel_mid(c) == mid && channel_margs(c) == args_model(
                                    args.0@,
                                )) by {
                                if channel_mid(c) == mid && channel_margs(c) == args_model(args.0@) {
                                    lemma_args_model_index(args.0@);
                                    assert(args_model(args.0@)[v@.len() - 1] == arg_model(
                                        args.0@[v@.len() - 1],
                                    ));
                                    assert(false);
                                }
                            }
                        }
                        return None;
                    },
                    Some(x) => x,
                };
                let g = ChannelClass::OpenOk(OpenOkMethod {
                    reserved1: e0,
                });
                proof {
                    assert(channel_margs(g) =~= args_model(args.0@));
                }
                Some(g)
            },
            20 => {
                if v.len() != 1 {
                    proof {
                        assert forall|c: ChannelClass|
                            !(channel_mid(c) == mid && channel_margs(c) == args_model(
                                args.0@,
                            )) by {
                            if channel_mid(c) == mid && channel_margs(c) == args_model(args.0@) {
                                lemma_args_model_index(args.0@);
                                assert(forall|i: int| 0 <= i < args.0@.len()
                                    ==> #[trigger] channel_margs(c)[i] == arg_model(args.0@[i]));
                                assert(false);
                            }
                        }
                    }
                    return None;
                }
                let e0 = match take_bits(&mut v) {
                    None => {
                        proof {
                            assert(v@.last() == args.0@[v@.len() - 1]);
                            assert forall|c: ChannelClass|
                                !(channel_mid(c) == mid && channel_margs(c) == args_model(
                                    args.0@,
                                )) by {
                                if channel_mid(c) == mid && channel_margs(c) == args_model(args.0@) {
                                    lemma_args_model_index(args.0@);
                                    assert(args_model(args.0@)[v@.len() - 1] == arg_model(
                                        args.0@[v@.len() - 1],
                                    ));
                                    assert(false);
                                }
                            }
                        }
                        return None;
                    },
                    Some(x) => x,
                };
                let g = ChannelClass::Flow(FlowMethod {
                    active: unpack_bit(e0, 0),
                });
                proof {
                    assert forall|c: ChannelClass|
                        channel_mid(c) == mid && channel_margs(c) == args_model(
                            args.0@,
                        ) implies channel_margs(g) == channel_margs(c) by {
                        if let ChannelClass::Flow(a) = c {
                            lemma_args_model_index(args.0@);
                            assert(forall|i: int| 0 <= i < args.0@.len()
                                ==> #[trigger] channel_margs(c)[i] == arg_model(args.0@[i]));
                            lemma_bit_packing(a.active, false, false, false, false);
                            assert(channel_margs(g) =~= channel_margs(c));
                        }
                    }
                }
                Some(g)
            },
            21 => {
                if v.len() != 1 {
                    proof {
                        assert forall|c: ChannelClass|
                            !(channel_mid(c) == mid && channel_margs(c) == args_model(
                                args.0@,
                            )) by {
                            if channel_mid(c) == mid && channel_margs(c) == args_model(args.0@) {
                                lemma_args_model_index(args.0@);
                                assert(forall|i: int| 0 <= i < args.0@.len()
                                    ==> #[trigger] channel_margs(c)[i] == arg_model(args.0@[i]));
                                assert(false);
                            }
                        }
                    }
                    return None;
                }
                let e0 = match take_bits(&mut v) {
                    None => {
                        proof {
                            assert(v@.last() == args.0@[v@.len() - 1]);
                            assert forall|c: ChannelClass|
                                !(channel_mid(c) == mid && channel_margs(c) == args_model(
                                    args.0@,
                                )) by {
                                if channel_mid(c) == mid && channel_margs(c) == args_model(args.0@) {
                                    lemma_args_model_index(args.0@);
                                    assert(args_model(args.0@)[v@.len() - 1] == arg_model(
                                        args.0@[v@.len() - 1],
                                    ));
                                    assert(false);
                                }
                            }
                        }
                        return None;
                    },
                    Some(x) => x,
                };
                let g = ChannelClass::FlowOk(FlowOkMethod {
                    active: unpack_bit(e0, 0),
                });
                proof {
                    assert forall|c: ChannelClass|
                        channel_mid(c) == mid && channel_margs(c) == args_model(
                            args.0@,
                        ) implies channel_margs(g) == channel_margs(c) by {
                        if let ChannelClass::FlowOk(a) = c {
                            lemma_args_model_index(args.0@);
                            assert(forall|i: int| 0 <= i < args.0@.len()
                                ==> #[trigger] channel_margs(c)[i] == arg_model(args.0@[i]));
                            lemma_bit_packing(a.active, false, false, false, false);
                            assert(channel_margs(g) =~= channel_margs(c));
                        }
                    }
                }
                Some(g)
            },
            40 => {
                if v.len() != 4 {
                    proof {
                        assert forall|c: ChannelClass|
                            !(channel_mid(c) == mid && channel_margs(c) == args_model(
                                args.0@,
                            )) by {
                            if channel_mid(c) == mid && channel_margs(c) == args_model(args.0@) {
                                lemma_args_model_index(args.0@);
                                assert(forall|i: int| 0 <= i < args.0@.len()
                                    ==> #[trigger] channel_margs(c)[i] == arg_model(args.0@[i]));
                                assert(false);
                            }
                        }
                    }
                    return None;
                }
                let e3 = match take_short(&mut v) {
                    None => {
                        proof {
                            assert(v@.last() == args.0@[v@.len() - 1]);
                            assert forall|c: ChannelClass|
                                !(channel_mid(c) == mid && channel_margs(c) == args_model(
                                    args.0@,
                                )) by {
                                if channel_mid(c) == mid && channel_margs(c) == args_model(args.0@) {
                                    lemma_args_model_index(args.0@);
                                    assert(args_model(args.0@)[v@.len() - 1] == arg_model(
                                        args.0@[v@.len() - 1],
                                    ));
                                    assert(false);
                                }
                            }
                        }
                        return None;
                    },
                    Some(x) => x,
                };
                let e2 = match take_short(&mut v) {
                    None => {
                        proof {
                            assert(v@.last() == args.0@[v@.len() - 1]);
                            assert forall|c: ChannelClass|
                                !(channel_mid(c) == mid && channel_margs(c) == args_model(
                                    args.0@,
                                )) by {
                                if channel_mid(c) == mid && channel_margs(c) == args_model(args.0@) {
                                    lemma_args_model_index(args.0@);
                                    assert(args_model(args.0@)[v@.len() - 1] == arg_model(
                                        args.0@[v@.len() - 1],
                                    ));
                                    assert(false);
                                }
                            }
                        }
                        return None;
                    },
                    Some(x) => x,
                };
                let e1 = match take_short_string(&mut v) {
                    None => {
                        proof {
                            assert(v@.last() == args.0@[v@.len() - 1]);
                            assert forall|c: ChannelClass|
                                !(channel_mid(c) == mid && channel_margs(c) == args_model(
                                    args.0@,
                                )) by {
                                if channel_mid(c) == mid && channel_margs(c) == args_model(args.0@) {
                                    lemma_args_model_index(args.0@);
                                    assert(args_model(args.0@)[v@.len() - 1] == arg_model(
                                        args.0@[v@.len() - 1],
                                    ));
                                    assert(false);
                                }
                            }
                        }
                        return None;
                    },
                    Some(x) => x,
                };
                let e0 = match take_short(&mut v) {
                    None => {
                        proof {
                            assert(v@.last() == args.0@[v@.len() - 1]);
                            assert forall|c: ChannelClass|
                                !(channel_mid(c) == mid && channel_margs(c) == args_model(
                                    args.0@,
                                )) by {
                                if channel_mid(c) == mid && channel_margs(c) == args_model(args.0@) {
                                    lemma_args_model_index(args.0@);
                                    assert(args_model(args.0@)[v@.len() - 1] == arg_model(
                                        args.0@[v@.len() - 1],
                                    ));
                                    assert(false);
                                }
                            }
                        }
                        return None;
                    },
                    Some(x) => x,
                };
                let g = ChannelClass::Close(CloseMethod {
                    reply_code: e0,
                    reply_text: e1,
                    class_id: e2,
                    method_id: e3,
                });
                proof {
                    assert(channel_margs(g) =~= args_model(args.0@));
                }
                Some(g)
            },
            41 => {
                if v.len() != 0 {
                    proof {
                        assert forall|c: ChannelClass|
                            !(channel_mid(c) == mid && channel_margs(c) == args_model(
                                args.0@,
                            )) by {
                            if channel_mid(c) == mid && channel_margs(c) == args_model(args.0@) {
                                lemma_args_model_index(args.0@);
                                assert(forall|i: int| 0 <= i < args.0@.len()
                                    ==> #[trigger] channel_margs(c)[i] == arg_model(args.0@[i]));
                                assert(false);
                            }
                        }
                    }
                    return None;
                }
                let g = ChannelClass::CloseOk;
                proof {
                    assert(channel_margs(g) =~= args_model(args.0@));
                }
                Some(g)
            },
            _ => None,
        }
    }
}

} // verus!
