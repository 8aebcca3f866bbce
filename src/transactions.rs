use std::collections::HashMap;
use vstd::prelude::*;
use crate::client::{Client, ClientError};

verus! {

broadcast use vstd::std_specs::hash::group_hash_axioms;

/// The five kinds of transaction.
#[derive(Clone, Copy, Debug, PartialEq, Eq, Structural)]
pub enum TransactionT {
    /// A credit: raises the available and total funds.
    Deposit,
    /// A debit: lowers the available and total funds.
    Withdrawal,
    /// A claim that an earlier deposit or withdrawal was wrong: its amount
    /// moves from the available to the held funds.
    Dispute,
    /// Closes a dispute in the client's favour: the held amount becomes
    /// available again.
    Resolve,
    /// Closes a dispute by reversing it: the held amount leaves the account,
    /// which is then locked.
    Chargeback,
}

/// One transaction event. `amount` is in minor units; it is present for
/// deposits and withdrawals and ignored for the other kinds, which take the
/// amount of the transaction they refer to.
#[derive(Clone, Copy, Debug, PartialEq, Eq, Structural)]
pub struct Transaction {
    pub tt: TransactionT,
    pub client: u16,
    pub tx: u32,
    pub amount: Option<u64>,
}

/// Why the ledger refused a transaction.
#[derive(Clone, Copy, Debug, PartialEq, Eq, Structural)]
pub enum Error {
    /// The account's own arithmetic refused the operation.
    AccountError(ClientError),
    /// The account was locked by an earlier chargeback.
    AccountLocked,
    /// A dispute names no deposit or withdrawal of the same client.
    TransactionNotFound,
    /// A resolve or chargeback names no open dispute of the same client.
    DisputeNotFound,
    /// A dispute names a transaction that is already under dispute.
    AlreadyDisputed,
    /// A record that could not be read as a transaction.
    MalformedRecord,
}

impl Transaction {
    /// Deposits and withdrawals carry an amount.
    pub open spec fn wf(&self) -> bool {
        (self.tt is Deposit || self.tt is Withdrawal) ==> self.amount is Some
    }

    /// The amount that a deposit or withdrawal moves.
    pub open spec fn value(&self) -> u64 {
        self.amount.unwrap_or(0)
    }

    pub fn new(tt: TransactionT, client: u16, tx: u32, amount: Option<u64>) -> (t: Transaction)
        ensures
            t == (Transaction { tt, client, tx, amount }),
    {
        Transaction { tt, client, tx, amount }
    }
}

/// What the ledger holds, as mathematical maps.
pub ghost struct LedgerState {
    /// Accounts by client id.
    pub clients: Map<u16, Client>,
    /// Accepted deposits and withdrawals by transaction id.
    pub history: Map<u32, Transaction>,
    /// Transactions under dispute by transaction id.
    pub disputes: Map<u32, Transaction>,
}

impl LedgerState {
    /// No accounts, no history, no disputes.
    pub open spec fn empty() -> LedgerState {
        LedgerState { clients: Map::empty(), history: Map::empty(), disputes: Map::empty() }
    }

    /// Every account keeps its balance invariant and is stored under its own
    /// id; the indices hold accepted deposits and withdrawals under their
    /// own ids; every open dispute refers to a transaction in the history.
    pub open spec fn wf(self) -> bool {
        &&& self.clients.dom().finite()
        &&& forall|id: u16| #[trigger] self.clients.contains_key(id)
            ==> self.clients[id].wf() && self.clients[id].id == id
        &&& forall|tx: u32| #[trigger] self.history.contains_key(tx)
            ==> Self::recorded(self.history[tx], tx)
        &&& forall|tx: u32| #[trigger] self.disputes.contains_key(tx)
            ==> Self::recorded(self.disputes[tx], tx) && self.history.contains_key(tx)
    }

    /// A deposit or withdrawal with an amount, stored under its own id.
    pub open spec fn recorded(t: Transaction, tx: u32) -> bool {
        &&& t.tx == tx
        &&& t.tt is Deposit || t.tt is Withdrawal
        &&& t.amount is Some
    }

    /// The account of `id`, or a fresh one where `id` has not been seen.
    pub open spec fn account(self, id: u16) -> Client {
        if self.clients.contains_key(id) {
            self.clients[id]
        } else {
            Client::fresh(id)
        }
    }

    /// The state in which the account of `id` exists (created fresh if it
    /// did not) and nothing else has changed.
    pub open spec fn touched(self, id: u16) -> LedgerState {
        LedgerState { clients: self.clients.insert(id, self.account(id)), ..self }
    }

    /// Outcome of an account operation: on success the account is replaced
    /// and the indices take the given values; on failure only the account's
    /// creation remains.
    pub open spec fn apply(
        self,
        id: u16,
        outcome: Result<Client, ClientError>,
        history: Map<u32, Transaction>,
        disputes: Map<u32, Transaction>,
    ) -> (LedgerState, Result<(), Error>) {
        match outcome {
            Ok(c) => (LedgerState { clients: self.clients.insert(id, c), history, disputes }, Ok(())),
            Err(e) => (self.touched(id), Err(Error::AccountError(e))),
        }
    }

    /// Whether `tx` is an open dispute of client `id`.
    pub open spec fn disputed_by(self, tx: u32, id: u16) -> bool {
        self.disputes.contains_key(tx) && self.disputes[tx].client == id
    }

    /// Whether `tx` is an accepted deposit or withdrawal of client `id`.
    pub open spec fn recorded_for(self, tx: u32, id: u16) -> bool {
        self.history.contains_key(tx) && self.history[tx].client == id
    }

    /// Processing one transaction: the next state and the result.
    pub open spec fn step(self, t: Transaction) -> (LedgerState, Result<(), Error>) {
        let acct = self.account(t.client);
        if acct.locked {
            (self.touched(t.client), Err(Error::AccountLocked))
        } else {
            match t.tt {
                TransactionT::Deposit => self.apply(
                    t.client,
                    acct.deposit_result(t.value()),
                    self.history.insert(t.tx, t),
                    self.disputes,
                ),
                TransactionT::Withdrawal => self.apply(
                    t.client,
                    acct.withdrawal_result(t.value()),
                    self.history.insert(t.tx, t),
                    self.disputes,
                ),
                TransactionT::Dispute => if !self.recorded_for(t.tx, t.client) {
                    (self.touched(t.client), Err(Error::TransactionNotFound))
                } else if self.disputes.contains_key(t.tx) {
                    (self.touched(t.client), Err(Error::AlreadyDisputed))
                } else {
                    let orig = self.history[t.tx];
                    self.apply(
                        t.client,
                        acct.dispute_result(orig.value()),
                        self.history,
                        self.disputes.insert(t.tx, orig),
                    )
                },
                TransactionT::Resolve => if !self.disputed_by(t.tx, t.client) {
                    (self.touched(t.client), Err(Error::DisputeNotFound))
                } else {
                    self.apply(
                        t.client,
                        acct.resolve_result(self.disputes[t.tx].value()),
                        self.history,
                        self.disputes.remove(t.tx),
                    )
                },
                TransactionT::Chargeback => if !self.disputed_by(t.tx, t.client) {
                    (self.touched(t.client), Err(Error::DisputeNotFound))
                } else {
                    self.apply(
                        t.client,
                        acct.chargeback_result(self.disputes[t.tx].value()),
                        self.history,
                        self.disputes.remove(t.tx),
                    )
                },
            }
        }
    }
}

/// The accounts of `m` whose client id is below `bound`, in ascending
/// order of id.
pub open spec fn accounts_below(m: Map<u16, Client>, bound: nat) -> Seq<Client>
    decreases bound,
{
    if bound == 0 {
        Seq::empty()
    } else {
        let rest = accounts_below(m, (bound - 1) as nat);
        let id = (bound - 1) as u16;
        if m.contains_key(id) {
            rest.push(m[id])
        } else {
            rest
        }
    }
}

/// One past the largest client id.
pub const CLIENT_ID_BOUND: u32 = 65536;

/// The ledger: accounts by client id, the history of accepted deposits and
/// withdrawals, and the open disputes, each keyed for constant-time lookup.
pub struct TransactionsDispatcher {
    disputes: HashMap<u32, Transaction>,
    history: HashMap<u32, Transaction>,
    clients: HashMap<u16, Client>,
}

impl View for TransactionsDispatcher {
    type V = LedgerState;

    closed spec fn view(&self) -> LedgerState {
        LedgerState { clients: self.clients@, history: self.history@, disputes: self.disputes@ }
    }
}

impl TransactionsDispatcher {
    /// The ledger's state satisfies [`LedgerState::wf`].
    pub open spec fn wf(&self) -> bool {
        self@.wf()
    }

    /// An empty ledger.
    pub fn new() -> (d: TransactionsDispatcher)
        ensures
            d.wf(),
            d@ == LedgerState::empty(),
    {
        let d = TransactionsDispatcher {
            disputes: HashMap::new(),
            history: HashMap::new(),
            clients: HashMap::new(),
        };
        assert(d@.clients =~= Map::empty());
        assert(d@.history =~= Map::empty());
        assert(d@.disputes =~= Map::empty());
        d
    }

    /// The account of client `id`, if that client has been seen.
    pub fn get_account(&self, id: u16) -> (r: Option<Client>)
        ensures
            r == (if self@.clients.contains_key(id) {
                Some(self@.clients[id])
            } else {
                None
            }),
    {
        match self.clients.get(&id) {
            Some(c) => Some(*c),
            None => None,
        }
    }

    /// How many clients have been seen.
    pub fn client_count(&self) -> (n: usize)
        ensures
            n == self@.clients.len(),
    {
        self.clients.len()
    }

    /// Every account, in ascending order of client id.
    pub fn accounts(&self) -> (r: Vec<Client>)
        ensures
            r@ == accounts_below(self@.clients, CLIENT_ID_BOUND as nat),
    {
        let mut r: Vec<Client> = Vec::new();
        let mut k: u32 = 0;
        while k < CLIENT_ID_BOUND
            invariant
                k <= CLIENT_ID_BOUND,
                r@ == accounts_below(self@.clients, k as nat),
            decreases CLIENT_ID_BOUND - k,
        {
            let id = k as u16;
            match self.clients.get(&id) {
                Some(c) => r.push(*c),
                None => {},
            }
            k = k + 1;
        }
        r
    }

    /// The account of `id`, created with zero balances if `id` is new.
    fn get_client(&mut self, id: u16) -> (c: Client)
        requires
            old(self).wf(),
        ensures
            final(self).wf(),
            final(self)@ == old(self)@.touched(id),
            c == old(self)@.account(id),
    {
        match self.clients.get(&id) {
            Some(c) => {
                let c = *c;
                proof {
                    assert(self@.clients.insert(id, c) =~= self@.clients);
                }
                c
            },
            None => {
                let c = Client::new(id, None, None, None);
                self.clients.insert(id, c);
                proof {
                    assert(c == Client::fresh(id));
                    assert(self@.clients =~= old(self)@.clients.insert(id, c));
                    assert(self@ == old(self)@.touched(id));
                }
                c
            },
        }
    }

    /// Processes one transaction. On success the account and the indices
    /// change as [`LedgerState::step`] says; on failure nothing changes
    /// except that the account of a new client id exists.
    pub fn process_transactions(&mut self, transaction: &Transaction) -> (r: Result<(), Error>)
        requires
            old(self).wf(),
            transaction.wf(),
        ensures
            final(self).wf(),
            (final(self)@, r) == old(self)@.step(*transaction),
    {
        let ghost s0 = self@;
        let t = *transaction;
        let mut acct = self.get_client(t.client);
        if acct.locked {
            return Err(Error::AccountLocked);
        }
        match t.tt {
            TransactionT::Deposit => {
                let amount = match t.amount { Some(a) => a, None => 0 };
                match acct.deposit(amount) {
                    Ok(()) => {
                        self.clients.insert(t.client, acct);
                        proof {
                            assert(self@.clients =~= s0.clients.insert(t.client, acct));
                        }
                        self.history.insert(t.tx, t);
                    },
                    Err(e) => return Err(Error::AccountError(e)),
                }
            },
            TransactionT::Withdrawal => {
                let amount = match t.amount { Some(a) => a, None => 0 };
                match acct.withdrawal(amount) {
                    Ok(()) => {
                        self.clients.insert(t.client, acct);
                        proof {
                            assert(self@.clients =~= s0.clients.insert(t.client, acct));
                        }
                        self.history.insert(t.tx, t);
                    },
                    Err(e) => return Err(Error::AccountError(e)),
                }
            },
            TransactionT::Dispute => {
                let orig = match self.history.get(&t.tx) {
                    Some(o) => *o,
                    None => return Err(Error::TransactionNotFound),
                };
                if orig.client != t.client {
                    return Err(Error::TransactionNotFound);
                }
                if self.disputes.contains_key(&t.tx) {
                    return Err(Error::AlreadyDisputed);
                }
                let amount = match orig.amount { Some(a) => a, None => 0 };
                match acct.dispute(amount) {
                    Ok(()) => {
                        self.clients.insert(t.client, acct);
                        proof {
                            assert(self@.clients =~= s0.clients.insert(t.client, acct));
                        }
                        self.disputes.insert(t.tx, orig);
                    },
                    Err(e) => return Err(Error::AccountError(e)),
                }
            },
            TransactionT::Resolve => {
                let open = match self.disputes.get(&t.tx) {
                    Some(o) => *o,
                    None => return Err(Error::DisputeNotFound),
                };
                if open.client != t.client {
                    return Err(Error::DisputeNotFound);
                }
                let amount = match open.amount { Some(a) => a, None => 0 };
                match acct.resolve(amount) {
                    Ok(()) => {
                        self.clients.insert(t.client, acct);
                        proof {
                            assert(self@.clients =~= s0.clients.insert(t.client, acct));
                        }
                        self.disputes.remove(&t.tx);
                    },
                    Err(e) => return Err(Error::AccountError(e)),
                }
            },
            TransactionT::Chargeback => {
                let open = match self.disputes.get(&t.tx) {
                    Some(o) => *o,
                    None => return Err(Error::DisputeNotFound),
                };
                if open.client != t.client {
                    return Err(Error::DisputeNotFound);
                }
                let amount = match open.amount { Some(a) => a, None => 0 };
                match acct.chargeback(amount) {
                    Ok(()) => {
                        self.clients.insert(t.client, acct);
                        proof {
                            assert(self@.clients =~= s0.clients.insert(t.client, acct));
                        }
                        self.disputes.remove(&t.tx);
                    },
                    Err(e) => return Err(Error::AccountError(e)),
                }
            },
        }
        Ok(())
    }
}

} // verus!
