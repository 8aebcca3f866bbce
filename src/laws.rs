//! Properties of the ledger that relate several transactions or hold of
//! every state, proved over [`LedgerState::step`].
use vstd::prelude::*;
use crate::client::Client;
use crate::transactions::{Error, LedgerState, Transaction, TransactionT};

verus! {

/// The state after processing `ts` in order, starting from `s`.
pub open spec fn replay(s: LedgerState, ts: Seq<Transaction>) -> LedgerState
    decreases ts.len(),
{
    if ts.len() == 0 {
        s
    } else {
        replay(s, ts.drop_last()).step(ts.last()).0
    }
}

/// The set of known clients after one step is the set before, plus the
/// client the transaction names, whatever the outcome.
pub proof fn lemma_step_clients(s: LedgerState, t: Transaction)
    ensures
        s.step(t).0.clients.dom() == s.clients.dom().insert(t.client),
{
    assert(s.step(t).0.clients.dom() =~= s.clients.dom().insert(t.client));
}

/// A transaction that fails leaves the ledger as it was, except that the
/// account of a previously unseen client now exists with zero balances.
pub proof fn lemma_failure_changes_nothing(s: LedgerState, t: Transaction)
    ensures
        s.step(t).1 is Err ==> s.step(t).0 == s.touched(t.client),
{
}

/// After every transaction, successful or not, every account satisfies
/// `total == available + held` (with both balances unsigned, neither is
/// negative), and the ledger's indices stay consistent.
pub proof fn lemma_step_keeps_balances(s: LedgerState, t: Transaction)
    requires
        s.wf(),
        t.wf(),
    ensures
        s.step(t).0.wf(),
        forall|id: u16| #[trigger] s.step(t).0.clients.contains_key(id)
            ==> s.step(t).0.clients[id].total as int
                == s.step(t).0.clients[id].available as int + s.step(t).0.clients[id].held as int,
{
    let s1 = s.step(t).0;
    assert forall|tx: u32| #[trigger] s1.disputes.contains_key(tx)
        implies LedgerState::recorded(s1.disputes[tx], tx) && s1.history.contains_key(tx) by {
        if t.tt is Dispute && !s.disputes.contains_key(tx) && tx == t.tx {
            assert(LedgerState::recorded(s.history[tx], tx));
        }
    }
}

/// The first transaction of an unseen client creates exactly one account,
/// and a second transaction of the same client reuses it.
pub proof fn lemma_account_lookup(s: LedgerState, t1: Transaction, t2: Transaction)
    requires
        s.wf(),
        t1.client == t2.client,
    ensures
        s.step(t1).0.clients.dom() == s.clients.dom().insert(t1.client),
        !s.clients.contains_key(t1.client)
            ==> s.step(t1).0.clients.dom().len() == s.clients.dom().len() + 1,
        s.step(t1).0.step(t2).0.clients.dom() == s.step(t1).0.clients.dom(),
{
    let s1 = s.step(t1).0;
    lemma_step_clients(s, t1);
    lemma_step_clients(s1, t2);
    assert(s1.clients.dom().insert(t2.client) =~= s1.clients.dom());
}

/// A locked account rejects every transaction with `AccountLocked`, and the
/// ledger is left exactly as it was.
pub proof fn lemma_locked_rejects(s: LedgerState, t: Transaction)
    requires
        s.clients.contains_key(t.client),
        s.clients[t.client].locked,
    ensures
        s.step(t) == (s, Err::<(), Error>(Error::AccountLocked)),
{
    assert(s.clients.insert(t.client, s.clients[t.client]) =~= s.clients);
}

/// Once locked, an account stays exactly as it is over any later sequence
/// of transactions, and each of its own transactions there is rejected with
/// `AccountLocked`.
pub proof fn lemma_locked_is_final(s: LedgerState, id: u16, ts: Seq<Transaction>)
    requires
        s.clients.contains_key(id),
        s.clients[id].locked,
    ensures
        replay(s, ts).clients.contains_key(id),
        replay(s, ts).clients[id] == s.clients[id],
        forall|i: int| 0 <= i < ts.len() && (#[trigger] ts[i]).client == id
            ==> replay(s, ts.take(i)).step(ts[i]).1 == Err::<(), Error>(Error::AccountLocked),
    decreases ts.len(),
{
    if ts.len() > 0 {
        let init = ts.drop_last();
        lemma_locked_is_final(s, id, init);
        let r = replay(s, init);
        if ts.last().client == id {
            lemma_locked_rejects(r, ts.last());
        }
        assert forall|i: int| 0 <= i < ts.len() && (#[trigger] ts[i]).client == id
            implies replay(s, ts.take(i)).step(ts[i]).1 == Err::<(), Error>(Error::AccountLocked) by {
            if i < ts.len() - 1 {
                assert(ts.take(i) =~= init.take(i));
                assert(init[i] == ts[i]);
            } else {
                assert(ts.take(i) =~= init);
                lemma_locked_rejects(r, ts[i]);
            }
        }
    } else {
        assert forall|i: int| 0 <= i < ts.len() && (#[trigger] ts[i]).client == id
            implies replay(s, ts.take(i)).step(ts[i]).1 == Err::<(), Error>(Error::AccountLocked) by {
        }
    }
}

/// A resolve or chargeback that names no open dispute of its own client
/// fails with `DisputeNotFound` and leaves every balance as it was (on an
/// unlocked account; a locked one answers `AccountLocked` first).
pub proof fn lemma_unknown_dispute_rejected(s: LedgerState, t: Transaction)
    requires
        t.tt is Resolve || t.tt is Chargeback,
        !s.disputed_by(t.tx, t.client),
        !s.account(t.client).locked,
    ensures
        s.step(t) == (s.touched(t.client), Err::<(), Error>(Error::DisputeNotFound)),
        forall|id: u16| #[trigger] s.clients.contains_key(id)
            ==> s.step(t).0.clients[id] == s.clients[id],
        s.step(t).0.clients[t.client] == s.account(t.client),
{
}

/// A dispute of a transaction that is already under dispute fails and
/// changes nothing; in particular a dispute that succeeded cannot be
/// repeated: the repeat fails with `AlreadyDisputed`.
pub proof fn lemma_no_double_dispute(s: LedgerState, t: Transaction)
    requires
        s.wf(),
        t.tt is Dispute,
    ensures
        s.disputes.contains_key(t.tx) ==> s.step(t).1 is Err && s.step(t).0 == s.touched(t.client),
        s.step(t).1 is Ok ==> s.step(t).0.step(t) == (
            s.step(t).0,
            Err::<(), Error>(Error::AlreadyDisputed),
        ),
{
    let s1 = s.step(t).0;
    if s.step(t).1 is Ok {
        assert(s1.clients.insert(t.client, s1.clients[t.client]) =~= s1.clients);
    }
}

} // verus!
