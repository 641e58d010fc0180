//! Global properties of the ledger state machine, stated over the spec
//! transition functions and proved once for all entry sequences.

use crate::ledger::Account;
use crate::ledger::Entry;
use crate::ledger::EntryState;
use crate::ledger::EntryType;
use crate::ledger::LedgerError;
use crate::ledger::State;
use crate::ledger::TxRecord;
use crate::ledger::account_or_new;
use crate::ledger::account_wf;
use crate::ledger::accounts_map_wf;
use crate::ledger::spec_apply;
use crate::ledger::spec_apply_op;
use vstd::prelude::*;

verus! {

/// The ledger reached by applying a sequence of entries, in order, to an
/// empty store.
pub open spec fn run_entries(es: Seq<Entry>) -> (Map<u16, Account>, Map<u32, TxRecord>)
    decreases es.len(),
{
    if es.len() == 0 {
        (Map::<u16, Account>::empty(), Map::<u32, TxRecord>::empty())
    } else {
        let (a, t) = run_entries(es.drop_last());
        let (a2, t2, r) = spec_apply(a, t, es.last());
        (a2, t2)
    }
}

/// Client `c`'s total funds: available plus held.
pub open spec fn total_of(accs: Map<u16, Account>, c: u16) -> int {
    account_or_new(accs, c).available + account_or_new(accs, c).held
}

/// The amount entry `e` adds to client `c`'s processed deposits when it is
/// applied to the ledger `(accs, txs)`: the entry's amount if it is a
/// deposit for `c` that is accepted, else zero.
pub open spec fn step_deposited(
    accs: Map<u16, Account>,
    txs: Map<u32, TxRecord>,
    e: Entry,
    c: u16,
) -> int {
    if e.client == c && e.typ == EntryType::Deposit && spec_apply(accs, txs, e).2 is Ok {
        match e.amount {
            Option::Some(amt) => amt as int,
            Option::None => 0,
        }
    } else {
        0
    }
}

/// The amount entry `e` adds to client `c`'s processed withdrawals.
pub open spec fn step_withdrawn(
    accs: Map<u16, Account>,
    txs: Map<u32, TxRecord>,
    e: Entry,
    c: u16,
) -> int {
    if e.client == c && e.typ == EntryType::Withdrawal && spec_apply(accs, txs, e).2 is Ok {
        match e.amount {
            Option::Some(amt) => amt as int,
            Option::None => 0,
        }
    } else {
        0
    }
}

/// The amount entry `e` charges back against client `c`: the referenced
/// record's amount if it is an accepted chargeback for `c`, else zero.
pub open spec fn step_charged_back(
    accs: Map<u16, Account>,
    txs: Map<u32, TxRecord>,
    e: Entry,
    c: u16,
) -> int {
    if e.client == c && e.typ == EntryType::Chargeback && spec_apply(accs, txs, e).2 is Ok {
        txs[e.id].amount as int
    } else {
        0
    }
}

/// The sum of client `c`'s processed deposit amounts over a run.
pub open spec fn deposited(es: Seq<Entry>, c: u16) -> int
    decreases es.len(),
{
    if es.len() == 0 {
        0
    } else {
        let (a, t) = run_entries(es.drop_last());
        deposited(es.drop_last(), c) + step_deposited(a, t, es.last(), c)
    }
}

/// The sum of client `c`'s processed withdrawal amounts over a run.
pub open spec fn withdrawn(es: Seq<Entry>, c: u16) -> int
    decreases es.len(),
{
    if es.len() == 0 {
        0
    } else {
        let (a, t) = run_entries(es.drop_last());
        withdrawn(es.drop_last(), c) + step_withdrawn(a, t, es.last(), c)
    }
}

/// The sum of client `c`'s charged-back amounts over a run.
pub open spec fn charged_back(es: Seq<Entry>, c: u16) -> int
    decreases es.len(),
{
    if es.len() == 0 {
        0
    } else {
        let (a, t) = run_entries(es.drop_last());
        charged_back(es.drop_last(), c) + step_charged_back(a, t, es.last(), c)
    }
}

/// Inserting a well-formed account preserves map well-formedness.
proof fn lemma_insert_wf(accs: Map<u16, Account>, c: u16, na: Account)
    requires
        accounts_map_wf(accs),
        account_wf(na),
    ensures
        accounts_map_wf(accs.insert(c, na)),
{
    assert forall|c2: u16| accs.insert(c, na).contains_key(c2) implies account_wf(
        #[trigger] accs.insert(c, na)[c2],
    ) by {
        if c2 != c {
            assert(account_wf(accs[c2]));
        }
    }
}

/// One step keeps every account well-formed.
pub proof fn lemma_apply_preserves_wf(accs: Map<u16, Account>, txs: Map<u32, TxRecord>, e: Entry)
    requires
        accounts_map_wf(accs),
    ensures
        accounts_map_wf(spec_apply(accs, txs, e).0),
{
    let a = account_or_new(accs, e.client);
    if accs.contains_key(e.client) {
        assert(account_wf(accs[e.client]));
    }
    assert(account_wf(a));
    let (a2, t2, r2) = spec_apply(accs, txs, e);
    if e.typ.is_fund_moving() {
        match e.amount {
            Option::Some(amt) => {
                if !txs.contains_key(e.id) {
                    if e.typ == EntryType::Deposit {
                        if !(a.available + a.held + amt > i64::MAX) {
                            let na = Account {
                                available: (a.available + amt) as i64,
                                held: a.held,
                                locked: a.locked,
                            };
                            assert(account_wf(na));
                            lemma_insert_wf(accs, e.client, na);
                        }
                    } else {
                        if a.available < amt {
                            lemma_insert_wf(accs, e.client, a);
                        } else {
                            let na = Account {
                                available: (a.available - amt) as i64,
                                held: a.held,
                                locked: a.locked,
                            };
                            assert(account_wf(na));
                            lemma_insert_wf(accs, e.client, na);
                        }
                    }
                }
            },
            Option::None => {},
        }
    } else {
        if txs.contains_key(e.id) && txs[e.id].client == e.client && accs.contains_key(e.client) {
            let r = txs[e.id];
            let amt = r.amount;
            if r2 is Ok {
                assert(a == accs[e.client]);
                if e.typ == EntryType::Dispute {
                    let na = Account {
                        available: (a.available - amt) as i64,
                        held: (a.held + amt) as i64,
                        locked: a.locked,
                    };
                    assert(account_wf(na));
                    lemma_insert_wf(accs, e.client, na);
                } else if e.typ == EntryType::Resolve {
                    let na = Account {
                        available: (a.available + amt) as i64,
                        held: (a.held - amt) as i64,
                        locked: a.locked,
                    };
                    assert(account_wf(na));
                    lemma_insert_wf(accs, e.client, na);
                } else {
                    let na = Account {
                        available: a.available,
                        held: (a.held - amt) as i64,
                        locked: true,
                    };
                    assert(account_wf(na));
                    lemma_insert_wf(accs, e.client, na);
                }
            }
        }
    }
}

/// Every account of a run from the empty ledger is well-formed.
pub proof fn lemma_run_wf(es: Seq<Entry>)
    ensures
        accounts_map_wf(run_entries(es).0),
    decreases es.len(),
{
    if es.len() == 0 {
    } else {
        lemma_run_wf(es.drop_last());
        let (a, t) = run_entries(es.drop_last());
        lemma_apply_preserves_wf(a, t, es.last());
    }
}

/// One step changes client `c`'s total by exactly its processed deposit,
/// minus its processed withdrawal, minus its charged-back amount.
pub proof fn lemma_step_total(accs: Map<u16, Account>, txs: Map<u32, TxRecord>, e: Entry, c: u16)
    requires
        accounts_map_wf(accs),
    ensures
        total_of(spec_apply(accs, txs, e).0, c) == total_of(accs, c) + step_deposited(
            accs,
            txs,
            e,
            c,
        ) - step_withdrawn(accs, txs, e, c) - step_charged_back(accs, txs, e, c),
{
    let a = account_or_new(accs, e.client);
    if accs.contains_key(e.client) {
        assert(account_wf(accs[e.client]));
    }
    assert(account_wf(a));
}

/// Conservation: after any sequence of entries, a client's total funds
/// `available + held` equal — and hence never exceed — the sum of the
/// client's processed deposits, minus its processed withdrawals, minus all
/// amounts charged back against it.
pub proof fn lemma_conservation(es: Seq<Entry>, c: u16)
    ensures
        total_of(run_entries(es).0, c) == deposited(es, c) - withdrawn(es, c) - charged_back(
            es,
            c,
        ),
        total_of(run_entries(es).0, c) <= deposited(es, c) - withdrawn(es, c) - charged_back(
            es,
            c,
        ),
    decreases es.len(),
{
    if es.len() == 0 {
    } else {
        lemma_conservation(es.drop_last(), c);
        lemma_run_wf(es.drop_last());
        let (a, t) = run_entries(es.drop_last());
        lemma_step_total(a, t, es.last(), c);
    }
}

/// A withdrawal with a fresh transaction id and an amount is rejected if
/// and only if it would drive `available` strictly negative; a rejected
/// withdrawal reports insufficient funds and leaves `available` unchanged,
/// an accepted one debits exactly its amount.
pub proof fn lemma_withdrawal_rejected_iff(
    accs: Map<u16, Account>,
    txs: Map<u32, TxRecord>,
    e: Entry,
    amt: u64,
)
    requires
        e.typ == EntryType::Withdrawal,
        e.amount == Option::Some(amt),
        !txs.contains_key(e.id),
    ensures
        (spec_apply(accs, txs, e).2 is Err) <==> account_or_new(accs, e.client).available < amt,
        spec_apply(accs, txs, e).2 is Err ==> spec_apply(accs, txs, e).2 == Result::<
            (),
            LedgerError,
        >::Err(LedgerError::InsufficientFunds),
        spec_apply(accs, txs, e).2 is Err ==> account_or_new(
            spec_apply(accs, txs, e).0,
            e.client,
        ).available == account_or_new(accs, e.client).available,
        spec_apply(accs, txs, e).2 is Ok ==> account_or_new(
            spec_apply(accs, txs, e).0,
            e.client,
        ).available == account_or_new(accs, e.client).available - amt,
{
}

/// Disputing a transaction that is not `Processed` or `Resolved` is
/// rejected and changes nothing.
pub proof fn lemma_dispute_needs_processed_or_resolved(
    accs: Map<u16, Account>,
    txs: Map<u32, TxRecord>,
    o: Entry,
)
    requires
        o.typ == EntryType::Dispute,
        txs.contains_key(o.id),
        !(txs[o.id].state == EntryState::Processed || txs[o.id].state == EntryState::Resolved),
    ensures
        spec_apply(accs, txs, o).2 is Err,
        spec_apply(accs, txs, o).0 == accs,
        spec_apply(accs, txs, o).1 == txs,
{
}

/// An operation entry without an amount of its own.
pub open spec fn op_entry(typ: EntryType, client: u16, id: u32) -> Entry {
    Entry { typ, client, id, amount: Option::None }
}

/// The dispute cycle is reentrant: resolving a disputed transaction and
/// then disputing it again both succeed, and a chargeback after that
/// cycle succeeds, locks the account, and leaves the record terminal.
pub proof fn lemma_resolve_dispute_chargeback_cycle(
    accs: Map<u16, Account>,
    txs: Map<u32, TxRecord>,
    c: u16,
    id: u32,
)
    requires
        accounts_map_wf(accs),
        txs.contains_key(id),
        txs[id].client == c,
        txs[id].state == EntryState::Disputed,
        accs.contains_key(c),
        accs[c].held >= txs[id].amount,
    ensures
        ({
            let (a1, t1, r1) = spec_apply(accs, txs, op_entry(EntryType::Resolve, c, id));
            let (a2, t2, r2) = spec_apply(a1, t1, op_entry(EntryType::Dispute, c, id));
            let (a3, t3, r3) = spec_apply(a2, t2, op_entry(EntryType::Chargeback, c, id));
            &&& r1 is Ok
            &&& r2 is Ok
            &&& r3 is Ok
            &&& a3.contains_key(c) && a3[c].locked
            &&& t3.contains_key(id) && t3[id].state == EntryState::Chargeback
        }),
{
    assert(account_wf(accs[c]));
}

/// Under the store invariant the defensive account check never fires: an
/// operation on a well-formed store never reports a missing account.
pub proof fn lemma_account_missing_is_dead(st: State, o: Entry)
    requires
        st.wf(),
        !o.typ.is_fund_moving(),
    ensures
        spec_apply_op(st.accounts@, st.transactions@, o).2 != Result::<(), LedgerError>::Err(
            LedgerError::AccountMissing,
        ),
{
    if st.transactions@.contains_key(o.id) {
        assert(st.accounts@.contains_key(st.transactions@[o.id].client));
    }
}

/// A chargeback is terminal: any later operation referencing the same
/// transaction is rejected and changes nothing.
pub proof fn lemma_chargeback_terminal(
    accs: Map<u16, Account>,
    txs: Map<u32, TxRecord>,
    o: Entry,
)
    requires
        !o.typ.is_fund_moving(),
        txs.contains_key(o.id),
        txs[o.id].state == EntryState::Chargeback,
    ensures
        spec_apply(accs, txs, o).2 is Err,
        spec_apply(accs, txs, o).0 == accs,
        spec_apply(accs, txs, o).1 == txs,
{
}

} // verus!
