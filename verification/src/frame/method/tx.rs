//! Tx class methods (class id 90).

use vstd::prelude::*;

use crate::args::{AmqpString, FieldTable, table_model};
use crate::methods::args::{
    Argument, Arguments, ArgModel, args_model, arg_model, pack_bits1, pack_bits2,
    pack_bits3, pack_bits4, pack_bits5, pack1, pack2, pack3, pack4, pack5, unpack_bit,
    take_octet, take_short, take_long, take_longlong, take_bits, take_short_string,
    take_long_string, take_timestamp, take_table, lemma_bit_packing,
    lemma_args_model_index,
};

verus! {

#[derive(Debug, PartialEq)]
pub enum TxClass {
    Select,
    SelectOk,
    Commit,
    CommitOk,
    Rollback,
    RollbackOk,
}

/// The method id of a tx method.
pub open spec fn tx_mid(c: TxClass) -> u16 {
    match c {
        TxClass::Select => 10,
        TxClass::SelectOk => 11,
        TxClass::Commit => 20,
        TxClass::CommitOk => 21,
        TxClass::Rollback => 30,
        TxClass::RollbackOk => 31,
    }
}

/// The argument list a tx method encodes to.
pub open spec fn tx_margs(c: TxClass) -> Seq<ArgModel> {
    match c {
        TxClass::Select => Seq::empty(),
        TxClass::SelectOk => Seq::empty(),
        TxClass::Commit => Seq::empty(),
        TxClass::CommitOk => Seq::empty(),
        TxClass::Rollback => Seq::empty(),
        TxClass::RollbackOk => Seq::empty(),
    }
}

impl TxClass {
    pub fn select(&self) -> (r: Option<()>)
        ensures
            r is Some <==> *self is Select,
    {
        match self {
            TxClass::Select => Some(()),
            _ => None,
        }
    }

    pub fn select_ok(&self) -> (r: Option<()>)
        ensures
            r is Some <==> *self is SelectOk,
    {
        match self {
            TxClass::SelectOk => Some(()),
            _ => None,
        }
    }

    pub fn commit(&self) -> (r: Option<()>)
        ensures
            r is Some <==> *self is Commit,
    {
        match self {
            TxClass::Commit => Some(()),
            _ => None,
        }
    }

    pub fn commit_ok(&self) -> (r: Option<()>)
        ensures
            r is Some <==> *self is CommitOk,
    {
        match self {
            TxClass::CommitOk => Some(()),
            _ => None,
        }
    }

    pub fn rollback(&self) -> (r: Option<()>)
        ensures
            r is Some <==> *self is Rollback,
    {
        match self {
            TxClass::Rollback => Some(()),
            _ => None,
        }
    }

    pub fn rollback_ok(&self) -> (r: Option<()>)
        ensures
            r is Some <==> *self is RollbackOk,
    {
        match self {
            TxClass::RollbackOk => Some(()),
            _ => None,
        }
    }

    /// Turn the method into its method id and argument list.
    pub fn into_args(self) -> (r: (u16, Arguments))
        ensures
            r.0 == tx_mid(self),
            args_model(r.1.0@) == tx_margs(self),
    {
        let mut v: Vec<Argument> = Vec::new();
        let mid: u16 = match self {
            TxClass::Select => 10,
            TxClass::SelectOk => 11,
            TxClass::Commit => 20,
            TxClass::CommitOk => 21,
            TxClass::Rollback => 30,
            TxClass::RollbackOk => 31,
        };
        proof {
            assert(args_model(v@) =~= tx_margs(self));
        }
        (mid, Arguments(v))
    }

    /// Rebuild the method from its method id and argument list.  Succeeds on
    /// the argument list of any method of this class with this id.
    #[verifier::rlimit(100)]
    #[verifier::spinoff_prover]
    pub fn from_args(mid: u16, args: Arguments) -> (r: Option<TxClass>)
        ensures
            r matches Some(g) ==> tx_mid(g) == mid,
            forall|c: TxClass|
                tx_mid(c) == mid && tx_margs(c) == args_model(args.0@) ==> (r matches Some(
                    g,
                ) && tx_margs(g) == tx_margs(c)),
    {
        let mut v = args.0;
        match mid {
            10 => {
                if v.len() != 0 {
                    proof {
                        assert forall|c: TxClass|
                            !(tx_mid(c) == mid && tx_margs(c) == args_model(
                                args.0@,
                            )) by {
                            if tx_mid(c) == mid && tx_margs(c) == args_model(args.0@) {
                                lemma_args_model_index(args.0@);
                                assert(forall|i: int| 0 <= i < args.0@.len()
                                    ==> #[trigger] tx_margs(c)[i] == arg_model(args.0@[i]));
                                assert(false);
                            }
                        }
                    }
                    return None;
                }
                let g = TxClass::Select;
                proof {
                    assert(tx_margs(g) =~= args_model(args.0@));
                }
                Some(g)
            },
            11 => {
                if v.len() != 0 {
                    proof {
                        assert forall|c: TxClass|
                            !(tx_mid(c) == mid && tx_margs(c) == args_model(
                                args.0@,
                            )) by {
                            if tx_mid(c) == mid && tx_margs(c) == args_model(args.0@) {
                                lemma_args_model_index(args.0@);
                                assert(forall|i: int| 0 <= i < args.0@.len()
                                    ==> #[trigger] tx_margs(c)[i] == arg_model(args.0@[i]));
                                assert(false);
                            }
                        }
                    }
                    return None;
                }
                let g = TxClass::SelectOk;
                proof {
                    assert(tx_margs(g) =~= args_model(args.0@));
                }
                Some(g)
            },
            20 => {
                if v.len() != 0 {
                    proof {
                        assert forall|c: TxClass|
                            !(tx_mid(c) == mid && tx_margs(c) == args_model(
                                args.0@,
                            )) by {
                            if tx_mid(c) == mid && tx_margs(c) == args_model(args.0@) {
                                lemma_args_model_index(args.0@);
                                assert(forall|i: int| 0 <= i < args.0@.len()
                                    ==> #[trigger] tx_margs(c)[i] == arg_model(args.0@[i]));
                                assert(false);
                            }
                        }
                    }
                    return None;
                }
                let g = TxClass::Commit;
                proof {
                    assert(tx_margs(g) =~= args_model(args.0@));
                }
                Some(g)
            },
            21 => {
                if v.len() != 0 {
                    proof {
                        assert forall|c: TxClass|
                            !(tx_mid(c) == mid && tx_margs(c) == args_model(
                                args.0@,
                            )) by {
                            if tx_mid(c) == mid && tx_margs(c) == args_model(args.0@) {
                                lemma_args_model_index(args.0@);
                                assert(forall|i: int| 0 <= i < args.0@.len()
                                    ==> #[trigger] tx_margs(c)[i] == arg_model(args.0@[i]));
                                assert(false);
                            }
                        }
                    }
                    return None;
                }
                let g = TxClass::CommitOk;
                proof {
                    assert(tx_margs(g) =~= args_model(args.0@));
                }
                Some(g)
            },
            30 => {
                if v.len() != 0 {
                    proof {
                        assert forall|c: TxClass|
                            !(tx_mid(c) == mid && tx_margs(c) == args_model(
                                args.0@,
                            )) by {
                            if tx_mid(c) == mid && tx_margs(c) == args_model(args.0@) {
                                lemma_args_model_index(args.0@);
                                assert(forall|i: int| 0 <= i < args.0@.len()
                                    ==> #[trigger] tx_margs(c)[i] == arg_model(args.0@[i]));
                                assert(false);
                            }
                        }
                    }
                    return None;
                }
                let g = TxClass::Rollback;
                proof {
                    assert(tx_margs(g) =~= args_model(args.0@));
                }
                Some(g)
            },
            31 => {
                if v.len() != 0 {
                    proof {
                        assert forall|c: TxClass|
                            !(tx_mid(c) == mid && tx_margs(c) == args_model(
                                args.0@,
                            )) by {
                            if tx_mid(c) == mid && tx_margs(c) == args_model(args.0@) {
                                lemma_args_model_index(args.0@);
                                assert(forall|i: int| 0 <= i < args.0@.len()
                                    ==> #[trigger] tx_margs(c)[i] == arg_model(args.0@[i]));
                                assert(false);
                            }
                        }
                    }
                    return None;
                }
                let g = TxClass::RollbackOk;
                proof {
                    assert(tx_margs(g) =~= args_model(args.0@));
                }
                Some(g)
            },
            _ => None,
        }
    }
}

} // verus!
