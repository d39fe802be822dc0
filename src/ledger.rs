//! The ledger engine: per-client accounts and the transition applied by each
//! transaction record.

use std::collections::HashMap;
use vstd::prelude::*;

verus! {

broadcast use vstd::std_specs::hash::group_hash_axioms;

/// The five kinds of transaction record.
#[derive(Clone, Copy, Debug, PartialEq, Eq, Structural)]
pub enum TransactionType {
    Deposit,
    Withdrawal,
    Dispute,
    Resolve,
    Chargeback,
}

/// One decoded input record. `amount` is in ten-thousandths of a unit and is
/// present for deposits and withdrawals only.
#[derive(Clone, Copy, Debug, PartialEq, Eq, Structural)]
pub struct Transaction {
    pub transaction_type: TransactionType,
    pub client: u16,
    pub tx: u32,
    pub amount: Option<i64>,
}

/// A client's account. `transactions` maps the id of each applied deposit to
/// its amount and whether it is currently disputed.
#[derive(Debug)]
pub struct Account {
    pub available: i64,
    pub held: i64,
    pub locked: bool,
    pub transactions: HashMap<u32, (i64, bool)>,
}

/// The mathematical model of an account.
pub struct AccountView {
    pub available: int,
    pub held: int,
    pub locked: bool,
    pub log: Map<u32, (i64, bool)>,
}

impl View for Account {
    type V = AccountView;

    open spec fn view(&self) -> AccountView {
        AccountView {
            available: self.available as int,
            held: self.held as int,
            locked: self.locked,
            log: self.transactions@,
        }
    }
}

/// Whether `v` can be held in an `i64`.
pub open spec fn fits(v: int) -> bool {
    i64::MIN <= v <= i64::MAX
}

/// A fresh account: no funds, unlocked, nothing logged.
pub open spec fn empty_account() -> AccountView {
    AccountView { available: 0, held: 0, locked: false, log: Map::empty() }
}

/// The balance of an account: available plus held funds.
pub open spec fn total(a: AccountView) -> int {
    a.available + a.held
}

/// Whether record `t` takes effect on account `a`: the account is not locked
/// and the precondition of the record's kind holds. A transition whose result
/// could not be represented does not apply either.
pub open spec fn applies(a: AccountView, t: Transaction) -> bool {
    !a.locked && match t.transaction_type {
        TransactionType::Deposit => t.amount is Some && fits(a.available + t.amount->0),
        TransactionType::Withdrawal => t.amount is Some && a.available >= t.amount->0 && fits(
            a.available - t.amount->0,
        ),
        TransactionType::Dispute => a.log.contains_key(t.tx) && !a.log[t.tx].1 && fits(
            a.available - a.log[t.tx].0,
        ) && fits(a.held + a.log[t.tx].0),
        TransactionType::Resolve => a.log.contains_key(t.tx) && a.log[t.tx].1 && fits(
            a.available + a.log[t.tx].0,
        ) && fits(a.held - a.log[t.tx].0),
        TransactionType::Chargeback => a.log.contains_key(t.tx) && a.log[t.tx].1 && fits(
            a.held - a.log[t.tx].0,
        ),
    }
}

/// The effect of record `t` on account `a`, where it applies.
pub open spec fn effect(a: AccountView, t: Transaction) -> AccountView {
    match t.transaction_type {
        TransactionType::Deposit => AccountView {
            available: a.available + t.amount->0,
            log: a.log.insert(t.tx, (t.amount->0, false)),
            ..a
        },
        TransactionType::Withdrawal => AccountView { available: a.available - t.amount->0, ..a },
        TransactionType::Dispute => AccountView {
            available: a.available - a.log[t.tx].0,
            held: a.held + a.log[t.tx].0,
            log: a.log.insert(t.tx, (a.log[t.tx].0, true)),
            ..a
        },
        TransactionType::Resolve => AccountView {
            available: a.available + a.log[t.tx].0,
            held: a.held - a.log[t.tx].0,
            log: a.log.insert(t.tx, (a.log[t.tx].0, false)),
            ..a
        },
        TransactionType::Chargeback => AccountView {
            held: a.held - a.log[t.tx].0,
            locked: true,
            log: a.log.insert(t.tx, (a.log[t.tx].0, false)),
            ..a
        },
    }
}

/// Account `a` after record `t`: its effect where it applies, else unchanged.
pub open spec fn step(a: AccountView, t: Transaction) -> AccountView {
    if applies(a, t) {
        effect(a, t)
    } else {
        a
    }
}

/// Sum of `a` and `b` where it fits in an `i64`.
fn add_in_range(a: i64, b: i64) -> (r: Option<i64>)
    ensures
        r == (if fits(a + b) {
            Some((a + b) as i64)
        } else {
            None::<i64>
        }),
{
    let s: i128 = a as i128 + b as i128;
    if i64::MIN as i128 <= s && s <= i64::MAX as i128 {
        Some(s as i64)
    } else {
        None
    }
}

/// Difference `a - b` where it fits in an `i64`.
fn sub_in_range(a: i64, b: i64) -> (r: Option<i64>)
    ensures
        r == (if fits(a - b) {
            Some((a - b) as i64)
        } else {
            None::<i64>
        }),
{
    let s: i128 = a as i128 - b as i128;
    if i64::MIN as i128 <= s && s <= i64::MAX as i128 {
        Some(s as i64)
    } else {
        None
    }
}

impl Account {
    /// A fresh account with zero balances, unlocked.
    pub fn new() -> (r: Account)
        ensures
            r@ == empty_account(),
    {
        Account { available: 0, held: 0, locked: false, transactions: HashMap::new() }
    }

    /// Total balance, available plus held.
    pub fn total(&self) -> (r: i128)
        ensures
            r == total(self@),
    {
        self.available as i128 + self.held as i128
    }
}

/// Applies one record to an account. A locked account, or a record whose
/// precondition fails, leaves the account unchanged.
pub fn process_transaction(account: &mut Account, transaction: &Transaction)
    ensures
        final(account)@ == step(old(account)@, *transaction),
{
    if account.locked {
        return ;
    }
    let tx = transaction.tx;
    match transaction.transaction_type {
        TransactionType::Deposit => {
            if let Some(amount) = transaction.amount {
                if let Some(v) = add_in_range(account.available, amount) {
                    account.available = v;
                    account.transactions.insert(tx, (amount, false));
                }
            }
        },
        TransactionType::Withdrawal => {
            if let Some(amount) = transaction.amount {
                if account.available >= amount {
                    if let Some(v) = sub_in_range(account.available, amount) {
                        account.available = v;
                    }
                }
            }
        },
        TransactionType::Dispute => {
            if let Some(entry) = account.transactions.get(&tx) {
                let (amount, disputed) = *entry;
                if !disputed {
                    if let (Some(a), Some(h)) = (
                        sub_in_range(account.available, amount),
                        add_in_range(account.held, amount),
                    ) {
                        account.available = a;
                        account.held = h;
                        account.transactions.insert(tx, (amount, true));
                    }
                }
            }
        },
        TransactionType::Resolve => {
            if let Some(entry) = account.transactions.get(&tx) {
                let (amount, disputed) = *entry;
                if disputed {
                    if let (Some(a), Some(h)) = (
                        add_in_range(account.available, amount),
                        sub_in_range(account.held, amount),
                    ) {
                        account.available = a;
                        account.held = h;
                        account.transactions.insert(tx, (amount, false));
                    }
                }
            }
        },
        TransactionType::Chargeback => {
            if let Some(entry) = account.transactions.get(&tx) {
                let (amount, disputed) = *entry;
                if disputed {
                    if let Some(h) = sub_in_range(account.held, amount) {
                        account.held = h;
                        account.locked = true;
                        account.transactions.insert(tx, (amount, false));
                    }
                }
            }
        },
    }
}

/// The table of all accounts, keyed by client id.
pub struct Ledger {
    accounts: HashMap<u16, Account>,
}

/// The account of `client` in table `m`, or a fresh one if it has none yet.
pub open spec fn account_of(m: Map<u16, AccountView>, client: u16) -> AccountView {
    if m.contains_key(client) {
        m[client]
    } else {
        empty_account()
    }
}

/// Table `m` after record `t`: the record's client gets an account if it had
/// none, and the record is applied to that account.
pub open spec fn ledger_step(m: Map<u16, AccountView>, t: Transaction) -> Map<u16, AccountView> {
    m.insert(t.client, step(account_of(m, t.client), t))
}

/// Table `m` after the records of `ts`, in order.
pub open spec fn replay(m: Map<u16, AccountView>, ts: Seq<Transaction>) -> Map<
    u16,
    AccountView,
>
    decreases ts.len(),
{
    if ts.len() == 0 {
        m
    } else {
        ledger_step(replay(m, ts.drop_last()), ts.last())
    }
}

impl View for Ledger {
    type V = Map<u16, AccountView>;

    closed spec fn view(&self) -> Map<u16, AccountView> {
        Map::new(|c: u16| self.accounts@.contains_key(c), |c: u16| self.accounts@[c]@)
    }
}

impl Ledger {
    /// An empty table.
    pub fn new() -> (r: Ledger)
        ensures
            r@ == Map::<u16, AccountView>::empty(),
    {
        let r = Ledger { accounts: HashMap::new() };
        assert(r@ =~= Map::<u16, AccountView>::empty());
        r
    }

    /// Applies one record: creates the client's account if it is new, then
    /// applies the record to it.
    pub fn apply(&mut self, transaction: &Transaction)
        ensures
            final(self)@ == ledger_step(old(self)@, *transaction),
    {
        let client = transaction.client;
        let mut account = match self.accounts.remove(&client) {
            Some(a) => a,
            None => Account::new(),
        };
        assert(account@ == account_of(old(self)@, client));
        process_transaction(&mut account, transaction);
        self.accounts.insert(client, account);
        assert(self@ =~= ledger_step(old(self)@, *transaction));
    }

    /// The account of `client`, if it has one.
    pub fn get(&self, client: u16) -> (r: Option<&Account>)
        ensures
            match r {
                Some(a) => self@.contains_key(client) && a@ == self@[client],
                None => !self@.contains_key(client),
            },
    {
        self.accounts.get(&client)
    }

    /// Applies the records in order.
    pub fn apply_all(&mut self, transactions: &Vec<Transaction>)
        ensures
            final(self)@ == replay(old(self)@, transactions@),
    {
        let ghost start = self@;
        let mut i: usize = 0;
        while i < transactions.len()
            invariant
                i <= transactions@.len(),
                self@ == replay(start, transactions@.subrange(0, i as int)),
            decreases transactions@.len() - i,
        {
            self.apply(&transactions[i]);
            assert(transactions@.subrange(0, i + 1).drop_last() =~= transactions@.subrange(
                0,
                i as int,
            ));
            i = i + 1;
        }
        assert(transactions@.subrange(0, i as int) =~= transactions@);
    }
}

} // verus!
