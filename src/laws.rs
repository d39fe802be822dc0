//! Properties of the ledger engine over whole record streams.

use crate::ledger::{
    account_of, applies, empty_account, ledger_step, replay, step, total, AccountView,
    Transaction, TransactionType,
};
use vstd::prelude::*;

verus! {

/// The change that record `t` makes to the balance of account `a`: the amount
/// of an applied deposit, minus the amount of an applied withdrawal or
/// chargeback, and nothing otherwise.
pub open spec fn net_change(a: AccountView, t: Transaction) -> int {
    if applies(a, t) {
        match t.transaction_type {
            TransactionType::Deposit => t.amount->0 as int,
            TransactionType::Withdrawal => -(t.amount->0 as int),
            TransactionType::Chargeback => -(a.log[t.tx].0 as int),
            _ => 0,
        }
    } else {
        0
    }
}

/// The sum of the changes that the records of `ts`, replayed from table `m`,
/// make to the balance of `client`.
pub open spec fn net_flow(m: Map<u16, AccountView>, ts: Seq<Transaction>, client: u16) -> int
    decreases ts.len(),
{
    if ts.len() == 0 {
        0
    } else {
        let before = replay(m, ts.drop_last());
        net_flow(m, ts.drop_last(), client) + if ts.last().client == client {
            net_change(account_of(before, client), ts.last())
        } else {
            0
        }
    }
}

/// Conservation: after any prefix `ts` of a stream, a client's balance
/// (available plus held) is its starting balance plus the applied deposits,
/// minus the applied withdrawals and chargebacks.
pub proof fn lemma_conservation(m: Map<u16, AccountView>, ts: Seq<Transaction>, client: u16)
    ensures
        total(account_of(replay(m, ts), client)) == total(account_of(m, client)) + net_flow(
            m,
            ts,
            client,
        ),
    decreases ts.len(),
{
    if ts.len() > 0 {
        lemma_conservation(m, ts.drop_last(), client);
    }
}

/// Conservation from an empty table: a client's balance equals the applied
/// deposits minus the applied withdrawals and chargebacks.
pub proof fn lemma_conservation_from_empty(ts: Seq<Transaction>, client: u16)
    ensures
        total(account_of(replay(Map::empty(), ts), client)) == net_flow(
            Map::empty(),
            ts,
            client,
        ),
{
    lemma_conservation(Map::empty(), ts, client);
}

/// A dispute applied twice in a row has the effect of one.
pub proof fn lemma_dispute_idempotent(m: Map<u16, AccountView>, t: Transaction)
    requires
        t.transaction_type == TransactionType::Dispute,
    ensures
        ledger_step(ledger_step(m, t), t) == ledger_step(m, t),
{
    let m1 = ledger_step(m, t);
    assert(account_of(m1, t.client) == step(account_of(m, t.client), t));
    assert(ledger_step(m1, t) =~= m1);
}

/// A resolve or chargeback of a transaction that is not under dispute (never
/// logged, or not disputed now) changes nothing but to create the client's
/// account if it had none.
pub proof fn lemma_settle_needs_dispute(m: Map<u16, AccountView>, t: Transaction)
    requires
        t.transaction_type == TransactionType::Resolve || t.transaction_type
            == TransactionType::Chargeback,
        !(account_of(m, t.client).log.contains_key(t.tx) && account_of(m, t.client).log[t.tx].1),
    ensures
        account_of(ledger_step(m, t), t.client) == account_of(m, t.client),
        forall|c: u16| c != t.client ==> account_of(ledger_step(m, t), c) == account_of(m, c),
{
}

/// An applied chargeback locks the account.
pub proof fn lemma_chargeback_locks(a: AccountView, t: Transaction)
    requires
        t.transaction_type == TransactionType::Chargeback,
        applies(a, t),
    ensures
        step(a, t).locked,
{
}

/// Once a client's account is locked, no later record changes it.
pub proof fn lemma_lock_freezes(m: Map<u16, AccountView>, ts: Seq<Transaction>, client: u16)
    requires
        m.contains_key(client),
        m[client].locked,
    ensures
        replay(m, ts).contains_key(client),
        replay(m, ts)[client] == m[client],
    decreases ts.len(),
{
    if ts.len() > 0 {
        lemma_lock_freezes(m, ts.drop_last(), client);
    }
}

/// The first record of a client never seen creates its account with zero
/// balances, unlocked, and applies the record to it; other accounts are left
/// as they were.
pub proof fn lemma_new_client(m: Map<u16, AccountView>, t: Transaction)
    requires
        !m.contains_key(t.client),
    ensures
        ledger_step(m, t).contains_key(t.client),
        ledger_step(m, t)[t.client] == step(empty_account(), t),
        forall|c: u16| c != t.client ==> account_of(ledger_step(m, t), c) == account_of(m, c),
{
}

} // verus!
