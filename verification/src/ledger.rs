//! The ledger state machine: per-client accounts, per-transaction records,
//! and the rules by which one entry mutates them.
//!
//! All money amounts are exact fixed-point decimals held as integer counts
//! of 1/10000 units: entry amounts as `u64`, account balances as `i64`
//! (a balance may go negative when a deposit is disputed after its funds
//! were spent).

use std::collections::HashMap;
use vstd::prelude::*;

verus! {

broadcast use vstd::std_specs::hash::group_hash_axioms;

/// The kind of one input entry.
#[derive(Clone, Copy, PartialEq, Eq, Structural, Debug)]
pub enum EntryType {
    Deposit,
    Withdrawal,
    Dispute,
    Resolve,
    Chargeback,
}

impl EntryType {
    /// True of the fund-moving kinds: the only kinds that create a
    /// transaction record.
    pub open spec fn is_fund_moving(self) -> bool {
        self == EntryType::Deposit || self == EntryType::Withdrawal
    }

    /// Whether this entry kind is a fund-moving transaction.
    pub fn is_tx(&self) -> (r: bool)
        ensures
            r == self.is_fund_moving(),
    {
        *self == EntryType::Deposit || *self == EntryType::Withdrawal
    }

    /// Whether this entry kind is an operation on a prior transaction.
    pub fn is_op(&self) -> (r: bool)
        ensures
            r == !self.is_fund_moving(),
    {
        *self != EntryType::Deposit && *self != EntryType::Withdrawal
    }
}

/// The lifecycle state of a stored transaction record.
///
/// A record is stored as `Processed` or `Failed` the moment its entry is
/// handled (`New` is the nominal initial state and never outlives that
/// moment). `Processed` or `Resolved` records may be disputed; a `Disputed`
/// record may be resolved (and disputed again) or charged back, which is
/// terminal.
#[derive(Clone, Copy, PartialEq, Eq, Structural, Debug)]
pub enum EntryState {
    New,
    Processed,
    Failed,
    Disputed,
    Resolved,
    Chargeback,
}

impl Default for EntryState {
    /// The nominal initial state of a transaction record.
    fn default() -> (r: Self)
        ensures
            r == EntryState::New,
    {
        EntryState::New
    }
}

/// Which fund-moving kind a stored transaction record came from.
#[derive(Clone, Copy, PartialEq, Eq, Structural, Debug)]
pub enum TxKind {
    Deposit,
    Withdrawal,
}

/// One input record: a fund-moving transaction or an operation referencing
/// a prior transaction by id. Operations carry no amount of their own; an
/// amount on an operation entry is ignored.
#[derive(Clone, Copy, PartialEq, Eq, Debug)]
pub struct Entry {
    pub typ: EntryType,
    pub client: u16,
    pub id: u32,
    /// Amount in 1/10000 units; present for deposits and withdrawals.
    pub amount: Option<u64>,
}

/// One client's balances. `available` is spendable, `held` is frozen
/// pending dispute resolution, `locked` is set once a chargeback occurs.
#[derive(Clone, Copy, PartialEq, Eq, Structural, Debug)]
pub struct Account {
    pub available: i64,
    pub held: i64,
    pub locked: bool,
}

/// The stored record of an accepted or failed fund-moving entry.
#[derive(Clone, Copy, PartialEq, Eq, Structural, Debug)]
pub struct TxRecord {
    pub client: u16,
    pub kind: TxKind,
    pub amount: u64,
    pub state: EntryState,
}

/// Why an entry was rejected. Every rejection is recoverable: the stream
/// continues with the next entry.
#[derive(Clone, Copy, PartialEq, Eq, Structural, Debug)]
pub enum LedgerError {
    /// An input record does not parse as an entry.
    MalformedEntry,
    /// A fund-moving entry without an amount.
    MissingAmount,
    /// A fund-moving entry whose transaction id is already stored.
    DuplicateTransactionId,
    /// A withdrawal that would drive `available` negative.
    InsufficientFunds,
    /// An operation referencing an unknown transaction id.
    TransactionNotFound,
    /// An operation whose client differs from the referenced transaction's.
    CrossClientOperation,
    /// An operation not permitted in the referenced transaction's state.
    InvalidStateForOperation,
    /// Defensive: the referenced transaction's client has no account.
    AccountMissing,
    /// Defensive: a resolve or chargeback for more than is held.
    HeldFundsMissing,
    /// The entry would push a balance outside the representable range.
    BalanceOverflow,
}

/// The account a client starts with.
pub open spec fn new_account() -> Account {
    Account { available: 0, held: 0, locked: false }
}

/// Well-formedness of one account: held funds are never negative, and the
/// account total `available + held` stays representable.
pub open spec fn account_wf(a: Account) -> bool {
    &&& 0 <= a.held
    &&& i64::MIN <= a.available + a.held <= i64::MAX
}

/// Every account in the map is well-formed.
pub open spec fn accounts_map_wf(accs: Map<u16, Account>) -> bool {
    forall|c: u16| accs.contains_key(c) ==> account_wf(#[trigger] accs[c])
}

/// The account stored for `c`, or a fresh one if none is.
pub open spec fn account_or_new(accs: Map<u16, Account>, c: u16) -> Account {
    if accs.contains_key(c) {
        accs[c]
    } else {
        new_account()
    }
}

/// The effect of one fund-moving entry on the ledger: the new account map,
/// the new transaction map, and the outcome reported to the caller.
///
/// A deposit credits `available` and stores a `Processed` record; a
/// withdrawal with sufficient funds debits `available` and stores a
/// `Processed` record; a withdrawal with insufficient funds leaves the
/// balances alone but still creates the account and stores a `Failed`
/// record. An entry without an amount, or whose transaction id is already
/// stored, or whose deposit would push the account total past `i64::MAX`,
/// changes nothing.
pub open spec fn spec_apply_tx(
    accs: Map<u16, Account>,
    txs: Map<u32, TxRecord>,
    e: Entry,
) -> (Map<u16, Account>, Map<u32, TxRecord>, Result<(), LedgerError>)
    recommends
        e.typ.is_fund_moving(),
{
    match e.amount {
        Option::None => (accs, txs, Result::Err(LedgerError::MissingAmount)),
        Option::Some(amt) => if txs.contains_key(e.id) {
            (accs, txs, Result::Err(LedgerError::DuplicateTransactionId))
        } else {
            let a = account_or_new(accs, e.client);
            if e.typ == EntryType::Deposit {
                if a.available + a.held + amt > i64::MAX {
                    (accs, txs, Result::Err(LedgerError::BalanceOverflow))
                } else {
                    (
                        accs.insert(
                            e.client,
                            Account {
                                available: (a.available + amt) as i64,
                                held: a.held,
                                locked: a.locked,
                            },
                        ),
                        txs.insert(
                            e.id,
                            TxRecord {
                                client: e.client,
                                kind: TxKind::Deposit,
                                amount: amt,
                                state: EntryState::Processed,
                            },
                        ),
                        Result::Ok(()),
                    )
                }
            } else {
                if a.available < amt {
                    (
                        accs.insert(e.client, a),
                        txs.insert(
                            e.id,
                            TxRecord {
                                client: e.client,
                                kind: TxKind::Withdrawal,
                                amount: amt,
                                state: EntryState::Failed,
                            },
                        ),
                        Result::Err(LedgerError::InsufficientFunds),
                    )
                } else {
                    (
                        accs.insert(
                            e.client,
                            Account {
                                available: (a.available - amt) as i64,
                                held: a.held,
                                locked: a.locked,
                            },
                        ),
                        txs.insert(
                            e.id,
                            TxRecord {
                                client: e.client,
                                kind: TxKind::Withdrawal,
                                amount: amt,
                                state: EntryState::Processed,
                            },
                        ),
                        Result::Ok(()),
                    )
                }
            }
        },
    }
}

/// The effect of one dispute/resolve/chargeback operation on the ledger.
///
/// The referenced transaction must exist, belong to the operation's client,
/// and its client must have an account. A dispute of a `Processed` or
/// `Resolved` record moves the record's amount from `available` to `held`;
/// a resolve of a `Disputed` record moves it back; a chargeback of a
/// `Disputed` record destroys the held amount and locks the account.
/// Any other referenced state rejects the operation and changes nothing.
pub open spec fn spec_apply_op(
    accs: Map<u16, Account>,
    txs: Map<u32, TxRecord>,
    o: Entry,
) -> (Map<u16, Account>, Map<u32, TxRecord>, Result<(), LedgerError>)
    recommends
        !o.typ.is_fund_moving(),
{
    if !txs.contains_key(o.id) {
        (accs, txs, Result::Err(LedgerError::TransactionNotFound))
    } else {
        let r = txs[o.id];
        if r.client != o.client {
            (accs, txs, Result::Err(LedgerError::CrossClientOperation))
        } else if !accs.contains_key(o.client) {
            (accs, txs, Result::Err(LedgerError::AccountMissing))
        } else {
            let a = accs[o.client];
            let amt = r.amount;
            if o.typ == EntryType::Dispute {
                if !(r.state == EntryState::Processed || r.state == EntryState::Resolved) {
                    (accs, txs, Result::Err(LedgerError::InvalidStateForOperation))
                } else if a.available - amt < i64::MIN || a.held + amt > i64::MAX {
                    (accs, txs, Result::Err(LedgerError::BalanceOverflow))
                } else {
                    (
                        accs.insert(
                            o.client,
                            Account {
                                available: (a.available - amt) as i64,
                                held: (a.held + amt) as i64,
                                locked: a.locked,
                            },
                        ),
                        txs.insert(
                            o.id,
                            TxRecord {
                                client: r.client,
                                kind: r.kind,
                                amount: r.amount,
                                state: EntryState::Disputed,
                            },
                        ),
                        Result::Ok(()),
                    )
                }
            } else if o.typ == EntryType::Resolve {
                if r.state != EntryState::Disputed {
                    (accs, txs, Result::Err(LedgerError::InvalidStateForOperation))
                } else if a.held < amt {
                    (accs, txs, Result::Err(LedgerError::HeldFundsMissing))
                } else {
                    (
                        accs.insert(
                            o.client,
                            Account {
                                available: (a.available + amt) as i64,
                                held: (a.held - amt) as i64,
                                locked: a.locked,
                            },
                        ),
                        txs.insert(
                            o.id,
                            TxRecord {
                                client: r.client,
                                kind: r.kind,
                                amount: r.amount,
                                state: EntryState::Resolved,
                            },
                        ),
                        Result::Ok(()),
                    )
                }
            } else {
                if r.state != EntryState::Disputed {
                    (accs, txs, Result::Err(LedgerError::InvalidStateForOperation))
                } else if a.held < amt {
                    (accs, txs, Result::Err(LedgerError::HeldFundsMissing))
                } else {
                    (
                        accs.insert(
                            o.client,
                            Account {
                                available: a.available,
                                held: (a.held - amt) as i64,
                                locked: true,
                            },
                        ),
                        txs.insert(
                            o.id,
                            TxRecord {
                                client: r.client,
                                kind: r.kind,
                                amount: r.amount,
                                state: EntryState::Chargeback,
                            },
                        ),
                        Result::Ok(()),
                    )
                }
            }
        }
    }
}

/// The effect of one entry of any kind.
pub open spec fn spec_apply(
    accs: Map<u16, Account>,
    txs: Map<u32, TxRecord>,
    e: Entry,
) -> (Map<u16, Account>, Map<u32, TxRecord>, Result<(), LedgerError>) {
    if e.typ.is_fund_moving() {
        spec_apply_tx(accs, txs, e)
    } else {
        spec_apply_op(accs, txs, e)
    }
}

/// The ledger store: per-client accounts and per-transaction records,
/// together with the client ids in order of first appearance (so a
/// snapshot can be rendered deterministically).
pub struct State {
    pub accounts: HashMap<u16, Account>,
    pub clients: Vec<u16>,
    pub transactions: HashMap<u32, TxRecord>,
}

impl State {
    /// `clients` lists each account key exactly once.
    pub open spec fn clients_wf(self) -> bool {
        &&& forall|i: int, j: int|
            0 <= i < j < self.clients@.len() ==> #[trigger] self.clients@[i]
                != #[trigger] self.clients@[j]
        &&& forall|i: int|
            0 <= i < self.clients@.len() ==> self.accounts@.contains_key(#[trigger] self.clients@[i])
        &&& forall|c: u16| #[trigger] self.accounts@.contains_key(c) ==> self.clients@.contains(c)
    }

    /// Every stored transaction's client has an account.
    pub open spec fn txs_wf(self) -> bool {
        forall|id: u32|
            #[trigger] self.transactions@.contains_key(id) ==> self.accounts@.contains_key(
                self.transactions@[id].client,
            )
    }

    /// The store invariant: all accounts well-formed, the client list in
    /// step with the account map, and no record orphaned from its account.
    pub open spec fn wf(self) -> bool {
        &&& accounts_map_wf(self.accounts@)
        &&& self.clients_wf()
        &&& self.txs_wf()
    }

    /// An empty ledger.
    pub fn new() -> (s: State)
        ensures
            s.wf(),
            s.accounts@ == Map::<u16, Account>::empty(),
            s.transactions@ == Map::<u32, TxRecord>::empty(),
            s.clients@ == Seq::<u16>::empty(),
    {
        State {
            accounts: HashMap::new(),
            clients: Vec::new(),
            transactions: HashMap::new(),
        }
    }

    /// Look up one client's account.
    pub fn account_of(&self, client: u16) -> (r: Option<Account>)
        ensures
            r == (if self.accounts@.contains_key(client) {
                Option::Some(self.accounts@[client])
            } else {
                Option::None::<Account>
            }),
    {
        match self.accounts.get(&client) {
            Option::Some(a) => Option::Some(*a),
            Option::None => Option::None,
        }
    }

    /// Look up one stored transaction record.
    pub fn transaction_of(&self, id: u32) -> (r: Option<TxRecord>)
        ensures
            r == (if self.transactions@.contains_key(id) {
                Option::Some(self.transactions@[id])
            } else {
                Option::None::<TxRecord>
            }),
    {
        match self.transactions.get(&id) {
            Option::Some(t) => Option::Some(*t),
            Option::None => Option::None,
        }
    }

    /// Apply a fund-moving entry: credit a deposit, or debit a withdrawal
    /// that has funds to cover it, and store its transaction record.
    pub fn apply_tx(&mut self, e: Entry) -> (res: Result<(), LedgerError>)
        requires
            old(self).wf(),
            e.typ.is_fund_moving(),
        ensures
            final(self).wf(),
            ({
                let (a2, t2, r2) = spec_apply_tx(old(self).accounts@, old(self).transactions@, e);
                final(self).accounts@ == a2 && final(self).transactions@ == t2 && res == r2
            }),
            old(self).accounts@.contains_key(e.client) || !final(self).accounts@.contains_key(
                e.client,
            ) ==> final(self).clients@ == old(self).clients@,
            !old(self).accounts@.contains_key(e.client) && final(self).accounts@.contains_key(
                e.client,
            ) ==> final(self).clients@ == old(self).clients@.push(e.client),
    {
        let amt = match e.amount {
            Option::Some(a) => a,
            Option::None => {
                return Result::Err(LedgerError::MissingAmount);
            },
        };
        if self.transactions.contains_key(&e.id) {
            return Result::Err(LedgerError::DuplicateTransactionId);
        }
        let (a, fresh) = match self.accounts.get(&e.client) {
            Option::Some(acc) => (*acc, false),
            Option::None => (Account { available: 0, held: 0, locked: false }, true),
        };
        proof {
            assert(a == account_or_new(self.accounts@, e.client));
            assert(account_wf(a));
        }
        let avail: i128 = a.available as i128;
        let held: i128 = a.held as i128;
        let amt_w: i128 = amt as i128;
        if e.typ == EntryType::Deposit {
            if avail + held + amt_w > i64::MAX as i128 {
                return Result::Err(LedgerError::BalanceOverflow);
            }
            let na = Account { available: (avail + amt_w) as i64, held: a.held, locked: a.locked };
            self.store_tx_outcome(e.client, na, fresh, e.id, TxRecord {
                client: e.client,
                kind: TxKind::Deposit,
                amount: amt,
                state: EntryState::Processed,
            });
            Result::Ok(())
        } else {
            if avail < amt_w {
                self.store_tx_outcome(e.client, a, fresh, e.id, TxRecord {
                    client: e.client,
                    kind: TxKind::Withdrawal,
                    amount: amt,
                    state: EntryState::Failed,
                });
                Result::Err(LedgerError::InsufficientFunds)
            } else {
                let na = Account {
                    available: (avail - amt_w) as i64,
                    held: a.held,
                    locked: a.locked,
                };
                self.store_tx_outcome(e.client, na, fresh, e.id, TxRecord {
                    client: e.client,
                    kind: TxKind::Withdrawal,
                    amount: amt,
                    state: EntryState::Processed,
                });
                Result::Ok(())
            }
        }
    }

    /// Store the account and record left by one fund-moving entry, and
    /// register the client id on first appearance.
    fn store_tx_outcome(&mut self, client: u16, na: Account, fresh: bool, id: u32, rec: TxRecord)
        requires
            old(self).wf(),
            account_wf(na),
            fresh == !old(self).accounts@.contains_key(client),
            rec.client == client,
        ensures
            final(self).wf(),
            final(self).accounts@ == old(self).accounts@.insert(client, na),
            final(self).transactions@ == old(self).transactions@.insert(id, rec),
            !fresh ==> final(self).clients@ == old(self).clients@,
            fresh ==> final(self).clients@ == old(self).clients@.push(client),
    {
        self.accounts.insert(client, na);
        if fresh {
            proof {
                assert forall|i: int| 0 <= i < old(self).clients@.len() implies old(
                    self,
                ).clients@[i] != client by {
                    assert(old(self).accounts@.contains_key(old(self).clients@[i]));
                }
            }
            self.clients.push(client);
        }
        self.transactions.insert(id, rec);
        proof {
            let newc = self.clients@;
            let oldc = old(self).clients@;
            assert forall|c: u16| #[trigger] self.accounts@.contains_key(c) implies newc.contains(
                c,
            ) by {
                if c == client {
                    assert(newc[newc.len() - 1] == c || oldc.contains(c));
                } else {
                    assert(old(self).accounts@.contains_key(c));
                    let i = choose|i: int| 0 <= i < oldc.len() && oldc[i] == c;
                    assert(newc[i] == c);
                }
            }
        }
    }

    /// Apply a dispute, resolve, or chargeback to the transaction record
    /// it references, moving the recorded amount between `available` and
    /// `held` as the rules of that operation say.
    pub fn apply_op(&mut self, o: Entry) -> (res: Result<(), LedgerError>)
        requires
            old(self).wf(),
            !o.typ.is_fund_moving(),
        ensures
            final(self).wf(),
            ({
                let (a2, t2, r2) = spec_apply_op(old(self).accounts@, old(self).transactions@, o);
                final(self).accounts@ == a2 && final(self).transactions@ == t2 && res == r2
            }),
            final(self).clients@ == old(self).clients@,
    {
        let r = match self.transactions.get(&o.id) {
            Option::Some(t) => *t,
            Option::None => {
                return Result::Err(LedgerError::TransactionNotFound);
            },
        };
        if r.client != o.client {
            return Result::Err(LedgerError::CrossClientOperation);
        }
        let a = match self.accounts.get(&o.client) {
            Option::Some(x) => *x,
            Option::None => {
                return Result::Err(LedgerError::AccountMissing);
            },
        };
        proof {
            assert(account_wf(a));
        }
        let avail: i128 = a.available as i128;
        let held: i128 = a.held as i128;
        let amt_w: i128 = r.amount as i128;
        if o.typ == EntryType::Dispute {
            if !(r.state == EntryState::Processed || r.state == EntryState::Resolved) {
                return Result::Err(LedgerError::InvalidStateForOperation);
            }
            if avail - amt_w < i64::MIN as i128 || held + amt_w > i64::MAX as i128 {
                return Result::Err(LedgerError::BalanceOverflow);
            }
            self.store_op_outcome(
                o.client,
                Account {
                    available: (avail - amt_w) as i64,
                    held: (held + amt_w) as i64,
                    locked: a.locked,
                },
                o.id,
                TxRecord { client: r.client, kind: r.kind, amount: r.amount, state: EntryState::Disputed },
            );
            Result::Ok(())
        } else if o.typ == EntryType::Resolve {
            if r.state != EntryState::Disputed {
                return Result::Err(LedgerError::InvalidStateForOperation);
            }
            if held < amt_w {
                return Result::Err(LedgerError::HeldFundsMissing);
            }
            self.store_op_outcome(
                o.client,
                Account {
                    available: (avail + amt_w) as i64,
                    held: (held - amt_w) as i64,
                    locked: a.locked,
                },
                o.id,
                TxRecord { client: r.client, kind: r.kind, amount: r.amount, state: EntryState::Resolved },
            );
            Result::Ok(())
        } else {
            if r.state != EntryState::Disputed {
                return Result::Err(LedgerError::InvalidStateForOperation);
            }
            if held < amt_w {
                return Result::Err(LedgerError::HeldFundsMissing);
            }
            self.store_op_outcome(
                o.client,
                Account { available: a.available, held: (held - amt_w) as i64, locked: true },
                o.id,
                TxRecord { client: r.client, kind: r.kind, amount: r.amount, state: EntryState::Chargeback },
            );
            Result::Ok(())
        }
    }

    /// Store the account and record left by one operation on an existing
    /// client and transaction.
    fn store_op_outcome(&mut self, client: u16, na: Account, id: u32, rec: TxRecord)
        requires
            old(self).wf(),
            account_wf(na),
            old(self).accounts@.contains_key(client),
            old(self).transactions@.contains_key(id),
            rec.client == client,
        ensures
            final(self).wf(),
            final(self).accounts@ == old(self).accounts@.insert(client, na),
            final(self).transactions@ == old(self).transactions@.insert(id, rec),
            final(self).clients@ == old(self).clients@,
    {
        self.accounts.insert(client, na);
        self.transactions.insert(id, rec);
    }

    /// Apply one entry of any kind, dispatching on whether it moves funds
    /// or operates on a prior transaction.
    pub fn apply(&mut self, e: Entry) -> (res: Result<(), LedgerError>)
        requires
            old(self).wf(),
        ensures
            final(self).wf(),
            ({
                let (a2, t2, r2) = spec_apply(old(self).accounts@, old(self).transactions@, e);
                final(self).accounts@ == a2 && final(self).transactions@ == t2 && res == r2
            }),
            old(self).accounts@.contains_key(e.client) || !final(self).accounts@.contains_key(
                e.client,
            ) ==> final(self).clients@ == old(self).clients@,
            !old(self).accounts@.contains_key(e.client) && final(self).accounts@.contains_key(
                e.client,
            ) ==> final(self).clients@ == old(self).clients@.push(e.client),
    {
        if e.typ.is_tx() {
            self.apply_tx(e)
        } else {
            self.apply_op(e)
        }
    }
}

} // verus!
