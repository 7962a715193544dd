use vstd::prelude::*;
use std::collections::HashMap;
use crate::amount::{Amount, in_bound, lemma_bounded_fits};

verus! {

broadcast use vstd::std_specs::hash::group_hash_axioms;

/// The five kinds of transaction record.
#[derive(Clone, Copy, Debug, PartialEq, Eq, Structural)]
pub enum InputType {
    Deposit,
    Withdrawal,
    Dispute,
    Resolve,
    Chargeback,
}

/// One transaction record. `amount` is read for deposits and withdrawals only.
#[derive(Clone, Copy, Debug)]
pub struct Input {
    pub kind: InputType,
    pub client: u16,
    pub tx: u32,
    pub amount: Option<Amount>,
}

/// The balances of one client.
#[derive(Clone, Copy, Debug)]
pub struct Output {
    pub client: u16,
    pub available: Amount,
    pub held: Amount,
    pub total: Amount,
    pub locked: bool,
}

/// What is remembered of an accepted deposit or withdrawal, so that it can be
/// disputed later.
#[derive(Clone, Copy, Debug)]
pub struct HistoryEntry {
    pub client: u16,
    pub amount: Amount,
    pub disputed: bool,
}

/// The account table, keyed by client, and the history table, keyed by
/// transaction id.
pub struct Ledger {
    pub accounts: HashMap<u16, Output>,
    pub history: HashMap<u32, HistoryEntry>,
}

pub open spec fn zero_amount() -> Amount {
    Amount { mantissa: 0, scale: 0 }
}

/// The account of a client that was never referenced before.
pub open spec fn fresh_account(client: u16) -> Output {
    Output {
        client,
        available: zero_amount(),
        held: zero_amount(),
        total: zero_amount(),
        locked: false,
    }
}

/// The account of `client`, created empty where the table has none.
pub open spec fn account_of(accounts: Map<u16, Output>, client: u16) -> Output {
    if accounts.contains_key(client) {
        accounts[client]
    } else {
        fresh_account(client)
    }
}

/// The amount of a record, where it is present, is a decimal.
pub open spec fn input_wf(t: Input) -> bool {
    t.amount is Some ==> t.amount->0.wf()
}

pub open spec fn account_wf(a: Output) -> bool {
    a.available.wf() && a.held.wf() && a.total.wf()
}

/// Every amount held in the two tables is a decimal.
pub open spec fn tables_wf(accounts: Map<u16, Output>, history: Map<u32, HistoryEntry>) -> bool {
    &&& forall|c: u16| #[trigger] accounts.contains_key(c) ==> account_wf(accounts[c])
    &&& forall|tx: u32| #[trigger] history.contains_key(tx) ==> history[tx].amount.wf()
}

/// `total == available + held`, exactly.
pub open spec fn balanced(a: Output) -> bool {
    a.total.value() == a.available.value() + a.held.value()
}

/// No balance of the account is negative.
pub open spec fn non_negative(a: Output) -> bool {
    a.available.value() >= 0 && a.held.value() >= 0 && a.total.value() >= 0
}

pub open spec fn account_in_bound(a: Output) -> bool {
    in_bound(a.available) && in_bound(a.held) && in_bound(a.total)
}

/// The amount of the record, and that of the history entry it names, are in bound.
pub open spec fn amounts_in_bound(history: Map<u32, HistoryEntry>, t: Input) -> bool {
    &&& t.amount is Some ==> in_bound(t.amount->0)
    &&& history.contains_key(t.tx) ==> in_bound(history[t.tx].amount)
}

/// The amount of the record, and that of the history entry it names, are not negative.
pub open spec fn amounts_non_negative(history: Map<u32, HistoryEntry>, t: Input) -> bool {
    &&& t.amount is Some ==> t.amount->0.value() >= 0
    &&& history.contains_key(t.tx) ==> history[t.tx].amount.value() >= 0
}

/// Where the record names an entry of its own client: a disputed entry is covered
/// by `held`, and a dispute that would act is covered by `available`.
pub open spec fn reference_covered(a: Output, history: Map<u32, HistoryEntry>, t: Input) -> bool {
    history.contains_key(t.tx) && history[t.tx].client == t.client ==> {
        &&& history[t.tx].disputed ==> history[t.tx].amount.value() <= a.held.value()
        &&& t.kind == InputType::Dispute && !history[t.tx].disputed
            ==> history[t.tx].amount.value() <= a.available.value()
    }
}

/// A dispute, resolve or chargeback that the ledger ignores: its transaction is
/// unknown, belongs to another client, or is not in the state the kind asks for.
pub open spec fn ignored_reference(history: Map<u32, HistoryEntry>, t: Input) -> bool {
    &&& t.kind != InputType::Deposit && t.kind != InputType::Withdrawal
    &&& (!history.contains_key(t.tx) || history[t.tx].client != t.client || (t.kind
        == InputType::Dispute && history[t.tx].disputed) || (t.kind != InputType::Dispute
        && !history[t.tx].disputed))
}

/// The two tables after one record.
pub open spec fn step(accounts: Map<u16, Output>, history: Map<u32, HistoryEntry>, t: Input) -> (
    Map<u16, Output>,
    Map<u32, HistoryEntry>,
) {
    let c = t.client;
    let a = account_of(accounts, c);
    let unchanged = (accounts.insert(c, a), history);
    if a.locked {
        unchanged
    } else {
        match t.kind {
            InputType::Deposit => match t.amount {
                Some(x) => (
                    accounts.insert(
                        c,
                        Output {
                            available: a.available.spec_saturating_add(x),
                            total: a.total.spec_saturating_add(x),
                            ..a
                        },
                    ),
                    history.insert(t.tx, HistoryEntry { client: c, amount: x, disputed: false }),
                ),
                None => unchanged,
            },
            InputType::Withdrawal => match t.amount {
                Some(x) => if a.available.value() >= x.value() {
                    (
                        accounts.insert(
                            c,
                            Output {
                                available: a.available.spec_saturating_sub(x),
                                total: a.total.spec_saturating_sub(x),
                                ..a
                            },
                        ),
                        history.insert(
                            t.tx,
                            HistoryEntry { client: c, amount: x, disputed: false },
                        ),
                    )
                } else {
                    unchanged
                },
                None => unchanged,
            },
            _ => if history.contains_key(t.tx) && history[t.tx].client == c {
                let e = history[t.tx];
                if t.kind == InputType::Dispute && !e.disputed {
                    (
                        accounts.insert(
                            c,
                            Output {
                                available: a.available.spec_saturating_sub(e.amount),
                                held: a.held.spec_saturating_add(e.amount),
                                ..a
                            },
                        ),
                        history.insert(t.tx, HistoryEntry { disputed: true, ..e }),
                    )
                } else if t.kind == InputType::Resolve && e.disputed {
                    (
                        accounts.insert(
                            c,
                            Output {
                                available: a.available.spec_saturating_add(e.amount),
                                held: a.held.spec_saturating_sub(e.amount),
                                ..a
                            },
                        ),
                        history.insert(t.tx, HistoryEntry { disputed: false, ..e }),
                    )
                } else if t.kind == InputType::Chargeback && e.disputed {
                    (
                        accounts.insert(
                            c,
                            Output {
                                held: a.held.spec_saturating_sub(e.amount),
                                total: a.total.spec_saturating_sub(e.amount),
                                locked: true,
                                ..a
                            },
                        ),
                        history,
                    )
                } else {
                    unchanged
                }
            } else {
                unchanged
            },
        }
    }
}

/// The two tables after replaying `txns` in order from empty tables.
pub open spec fn run(txns: Seq<Input>) -> (Map<u16, Output>, Map<u32, HistoryEntry>)
    decreases txns.len(),
{
    if txns.len() == 0 {
        (Map::empty(), Map::empty())
    } else {
        let s = run(txns.drop_last());
        step(s.0, s.1, txns.last())
    }
}

/// An ignored dispute, resolve or chargeback leaves the history as it was, and the
/// account table as it was once the client's account exists.
pub proof fn lemma_ignored_reference_changes_nothing(
    accounts: Map<u16, Output>,
    history: Map<u32, HistoryEntry>,
    t: Input,
)
    requires
        ignored_reference(history, t),
    ensures
        step(accounts, history, t).1 == history,
        step(accounts, history, t).0 == accounts.insert(t.client, account_of(accounts, t.client)),
        accounts.contains_key(t.client) ==> step(accounts, history, t).0 == accounts,
{
    if accounts.contains_key(t.client) {
        assert(accounts.insert(t.client, accounts[t.client]) =~= accounts);
    }
}

/// A record for a client whose account is locked changes neither table.
pub proof fn lemma_locked_account_frozen(
    accounts: Map<u16, Output>,
    history: Map<u32, HistoryEntry>,
    t: Input,
)
    requires
        accounts.contains_key(t.client),
        accounts[t.client].locked,
    ensures
        step(accounts, history, t) == (accounts, history),
{
    assert(accounts.insert(t.client, accounts[t.client]) =~= accounts);
}

/// A record touches the account of its own client only.
pub proof fn lemma_step_touches_own_account(
    accounts: Map<u16, Output>,
    history: Map<u32, HistoryEntry>,
    t: Input,
    c: u16,
)
    requires
        c != t.client,
    ensures
        step(accounts, history, t).0.contains_key(c) == accounts.contains_key(c),
        accounts.contains_key(c) ==> step(accounts, history, t).0[c] == accounts[c],
{
}

/// Once the account of client `c` is locked after the first `n` records, no later
/// record changes it.
pub proof fn lemma_locked_account_stays_frozen(txns: Seq<Input>, n: int, c: u16)
    requires
        0 <= n <= txns.len(),
        run(txns.take(n)).0.contains_key(c),
        run(txns.take(n)).0[c].locked,
    ensures
        run(txns).0.contains_key(c),
        run(txns).0[c] == run(txns.take(n)).0[c],
    decreases txns.len(),
{
    if n == txns.len() {
        assert(txns.take(n) =~= txns);
    } else {
        let p = txns.drop_last();
        assert(p.take(n) =~= txns.take(n));
        lemma_locked_account_stays_frozen(p, n, c);
        let s = run(p);
        let t = txns.last();
        if t.client == c {
            lemma_locked_account_frozen(s.0, s.1, t);
        } else {
            lemma_step_touches_own_account(s.0, s.1, t, c);
        }
    }
}

impl Ledger {
    pub open spec fn wf(&self) -> bool {
        tables_wf(self.accounts@, self.history@)
    }

    /// A ledger with no accounts and no history.
    pub fn new() -> (r: Ledger)
        ensures
            r.wf(),
            r.accounts@ == Map::<u16, Output>::empty(),
            r.history@ == Map::<u32, HistoryEntry>::empty(),
    {
        Ledger { accounts: HashMap::new(), history: HashMap::new() }
    }

    /// Applies one record to the ledger.
    pub fn apply(&mut self, txn: &Input)
        requires
            old(self).wf(),
            input_wf(*txn),
        ensures
            final(self).wf(),
            (final(self).accounts@, final(self).history@) == step(
                old(self).accounts@,
                old(self).history@,
                *txn,
            ),
            ({
                let a0 = account_of(old(self).accounts@, txn.client);
                let a1 = final(self).accounts@[txn.client];
                balanced(a0) && account_in_bound(a0) && amounts_in_bound(old(self).history@, *txn)
                    ==> balanced(a1)
            }),
            ({
                let a0 = account_of(old(self).accounts@, txn.client);
                let a1 = final(self).accounts@[txn.client];
                non_negative(a0) && balanced(a0) && account_in_bound(a0) && amounts_in_bound(
                    old(self).history@,
                    *txn,
                ) && amounts_non_negative(old(self).history@, *txn) && reference_covered(
                    a0,
                    old(self).history@,
                    *txn,
                ) ==> non_negative(a1)
            }),
    {
        let c = txn.client;
        let mut acct = match self.accounts.get(&c) {
            Some(a) => *a,
            None => Output {
                client: c,
                available: Amount::zero(),
                held: Amount::zero(),
                total: Amount::zero(),
                locked: false,
            },
        };
        let ghost a0 = self.accounts@;
        let ghost h0 = self.history@;
        assert(acct == account_of(a0, c));
        proof {
            lemma_bounded_fits(acct.available, acct.held);
            if txn.amount is Some {
                lemma_bounded_fits(acct.available, txn.amount->0);
                lemma_bounded_fits(acct.total, txn.amount->0);
            }
            if h0.contains_key(txn.tx) {
                lemma_bounded_fits(acct.available, h0[txn.tx].amount);
                lemma_bounded_fits(acct.held, h0[txn.tx].amount);
                lemma_bounded_fits(acct.total, h0[txn.tx].amount);
            }
        }
        if acct.locked {
            self.accounts.insert(c, acct);
            return;
        }
        match txn.kind {
            InputType::Deposit | InputType::Withdrawal => {
                if let Some(x) = txn.amount {
                    let is_deposit = txn.kind == InputType::Deposit;
                    if is_deposit {
                        acct.available = acct.available.saturating_add(x);
                        acct.total = acct.total.saturating_add(x);
                        self.history.insert(
                            txn.tx,
                            HistoryEntry { client: c, amount: x, disputed: false },
                        );
                    } else if acct.available.at_least(x) {
                        acct.available = acct.available.saturating_sub(x);
                        acct.total = acct.total.saturating_sub(x);
                        self.history.insert(
                            txn.tx,
                            HistoryEntry { client: c, amount: x, disputed: false },
                        );
                    }
                }
            },
            _ => {
                let found = match self.history.get(&txn.tx) {
                    Some(e) => Some(*e),
                    None => None,
                };
                assert(found is Some <==> h0.contains_key(txn.tx));
                assert(found is Some ==> found->0 == h0[txn.tx]);
                if let Some(e) = found {
                    if e.client == c {
                        if txn.kind == InputType::Dispute && !e.disputed {
                            acct.available = acct.available.saturating_sub(e.amount);
                            acct.held = acct.held.saturating_add(e.amount);
                            self.history.insert(txn.tx, HistoryEntry { disputed: true, ..e });
                        } else if txn.kind == InputType::Resolve && e.disputed {
                            acct.available = acct.available.saturating_add(e.amount);
                            acct.held = acct.held.saturating_sub(e.amount);
                            self.history.insert(txn.tx, HistoryEntry { disputed: false, ..e });
                        } else if txn.kind == InputType::Chargeback && e.disputed {
                            acct.held = acct.held.saturating_sub(e.amount);
                            acct.total = acct.total.saturating_sub(e.amount);
                            acct.locked = true;
                        }
                    }
                }
            },
        }
        self.accounts.insert(c, acct);
    }
}

/// Replays `transactions` in order and returns the final account of every client
/// that any of them references.
pub fn process_transactions(transactions: Vec<Input>) -> (r: HashMap<u16, Output>)
    requires
        forall|i: int| 0 <= i < transactions.len() ==> input_wf(#[trigger] transactions[i]),
    ensures
        r@ == run(transactions@).0,
{
    let mut ledger = Ledger::new();
    let mut i: usize = 0;
    while i < transactions.len()
        invariant
            i <= transactions.len(),
            ledger.wf(),
            forall|j: int| 0 <= j < transactions.len() ==> input_wf(#[trigger] transactions[j]),
            (ledger.accounts@, ledger.history@) == run(transactions@.take(i as int)),
        decreases transactions.len() - i,
    {
        ledger.apply(&transactions[i]);
        proof {
            assert(transactions@.take(i + 1).drop_last() =~= transactions@.take(i as int));
        }
        i += 1;
    }
    proof {
        assert(transactions@.take(i as int) =~= transactions@);
    }
    ledger.accounts
}

} // verus!
