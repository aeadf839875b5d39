use vstd::prelude::*;

use crate::errors::AccountingError;
use crate::errors::AccountingErrorView;
use crate::tx::Tx;
use crate::tx::TxView;
use crate::tx::BalanceTable;
use crate::tx::can_deposit;
use crate::tx::can_withdraw;
use crate::tx::deposited;
use crate::tx::withdrawn;

verus! {

/// The authoritative in-memory table of account balances. It is created
/// empty and mutated only through [`Accounts::deposit`],
/// [`Accounts::withdraw`] and [`Accounts::send`]; every mutation either
/// completes in full or leaves the table exactly as it was.
///
/// Abstractly (through `@`) an `Accounts` value is a [`BalanceTable`], a map
/// from account identifiers to balances.
#[derive(Debug)]
pub struct Accounts {
    entries: Vec<(String, u64)>,
}

/// The balance table that a sequence of (identifier, balance) entries
/// denotes: later entries win, though under [`Accounts`]' invariant the
/// identifiers are pairwise distinct and the order never matters.
spec fn map_of(entries: Seq<(String, u64)>) -> BalanceTable
    decreases entries.len(),
{
    if entries.len() == 0 {
        Map::empty()
    } else {
        map_of(entries.drop_last()).insert(entries.last().0@, entries.last().1)
    }
}

/// Pairwise-distinct account identifiers: each account has one entry.
spec fn distinct_ids(entries: Seq<(String, u64)>) -> bool {
    forall|i: int, j: int|
        0 <= i < j < entries.len() ==> entries[i].0@ != entries[j].0@
}

/// A key that occurs in no entry is not in the denoted table.
proof fn lemma_map_of_absent(entries: Seq<(String, u64)>, key: Seq<char>)
    requires
        forall|i: int| 0 <= i < entries.len() ==> entries[i].0@ != key,
    ensures
        !map_of(entries).contains_key(key),
    decreases entries.len(),
{
    if entries.len() > 0 {
        lemma_map_of_absent(entries.drop_last(), key);
    }
}

/// With distinct identifiers, the entry at index `i` gives the denoted
/// table's value at its identifier.
proof fn lemma_map_of_index(entries: Seq<(String, u64)>, i: int)
    requires
        distinct_ids(entries),
        0 <= i < entries.len(),
    ensures
        map_of(entries).contains_key(entries[i].0@),
        map_of(entries)[entries[i].0@] == entries[i].1,
    decreases entries.len(),
{
    if i < entries.len() - 1 {
        lemma_map_of_index(entries.drop_last(), i);
        assert(entries[i].0@ != entries[entries.len() - 1].0@);
    }
}

/// With distinct identifiers, replacing the entry at index `i` by one with
/// the same identifier updates the denoted table at that identifier alone.
proof fn lemma_map_of_update(entries: Seq<(String, u64)>, i: int, e: (String, u64))
    requires
        distinct_ids(entries),
        0 <= i < entries.len(),
        e.0@ == entries[i].0@,
    ensures
        map_of(entries.update(i, e)) == map_of(entries).insert(e.0@, e.1),
    decreases entries.len(),
{
    let last = entries.len() - 1;
    if i == last {
        assert(entries.update(i, e).drop_last() =~= entries.drop_last());
        assert(map_of(entries.update(i, e)) =~= map_of(entries).insert(e.0@, e.1));
    } else {
        assert(entries.update(i, e).drop_last() =~= entries.drop_last().update(i, e));
        lemma_map_of_update(entries.drop_last(), i, e);
        assert(entries[i].0@ != entries[last].0@);
        assert(map_of(entries.update(i, e)) =~= map_of(entries).insert(e.0@, e.1));
    }
}

/// Appending an entry with a fresh identifier inserts it into the denoted
/// table.
proof fn lemma_map_of_push(entries: Seq<(String, u64)>, e: (String, u64))
    ensures
        map_of(entries.push(e)) == map_of(entries).insert(e.0@, e.1),
{
    assert(entries.push(e).drop_last() =~= entries);
}

impl View for Accounts {
    type V = BalanceTable;

    closed spec fn view(&self) -> BalanceTable {
        map_of(self.entries@)
    }
}

impl Accounts {
    /// Each account identifier appears in at most one entry, so the table
    /// the entries denote is unambiguous.
    #[verifier::type_invariant]
    spec fn wf(self) -> bool {
        distinct_ids(self.entries@)
    }

    /// Returns an empty ledger: its balance table has no entries.
    pub fn new() -> (r: Self)
        ensures
            r@ == BalanceTable::empty(),
    {
        Accounts { entries: Vec::new() }
    }

    /// The index of the entry for `id`, if the account has one.
    fn find(&self, id: &str) -> (r: Option<usize>)
        ensures
            match r {
                Some(i) => i < self.entries@.len() && self.entries@[i as int].0@ == id@,
                None => forall|j: int| 0 <= j < self.entries@.len() ==> self.entries@[j].0@ != id@,
            },
    {
        let key: String = id.to_owned();
        let mut i: usize = 0;
        while i < self.entries.len()
            invariant
                key@ == id@,
                i <= self.entries@.len(),
                forall|j: int| 0 <= j < i ==> self.entries@[j].0@ != id@,
            decreases self.entries@.len() - i,
        {
            if self.entries[i].0 == key {
                return Some(i);
            }
            i += 1;
        }
        None
    }

    /// The current balance of `id`, or `None` if the account has no entry.
    pub fn balance_of(&self, id: &str) -> (r: Option<u64>)
        ensures
            r == (if self@.contains_key(id@) {
                Some(self@[id@])
            } else {
                None::<u64>
            }),
    {
        proof {
            use_type_invariant(&*self);
        }
        match self.find(id) {
            Some(i) => {
                proof {
                    lemma_map_of_index(self.entries@, i as int);
                }
                Some(self.entries[i].1)
            },
            None => {
                proof {
                    lemma_map_of_absent(self.entries@, id@);
                }
                None
            },
        }
    }

    /// Deposits `amount` into the `signer` account, creating the account
    /// with that balance if it has no entry yet. Fails, leaving the table
    /// untouched, exactly when the account exists and the sum would
    /// overflow; the creation path cannot overflow, so a deposit into a
    /// fresh account always succeeds.
    pub fn deposit(&mut self, signer: &str, amount: u64) -> (r: Result<Tx, AccountingError>)
        ensures
            can_deposit(old(self)@, signer@, amount) ==> {
                &&& r matches Ok(t) && t@ == (TxView::Deposit { account: signer@, amount })
                &&& final(self)@ == deposited(old(self)@, signer@, amount)
            },
            !can_deposit(old(self)@, signer@, amount) ==> {
                &&& r matches Err(e) && e@ == AccountingErrorView::AccountOverFunded(
                    signer@,
                    amount,
                )
                &&& final(self)@ == old(self)@
            },
    {
        proof {
            use_type_invariant(&*self);
        }
        let ghost pre = self.entries@;
        match self.find(signer) {
            Some(i) => {
                proof {
                    lemma_map_of_index(pre, i as int);
                }
                match self.entries[i].1.checked_add(amount) {
                    Some(new_balance) => {
                        let key = signer.to_owned();
                        proof {
                            lemma_map_of_update(pre, i as int, (key, new_balance));
                        }
                        let mut updated: Vec<(String, u64)> = Vec::new();
                        std::mem::swap(&mut updated, &mut self.entries);
                        updated[i] = (key, new_balance);
                        self.entries = updated;
                        Ok(Tx::Deposit { account: signer.to_owned(), amount })
                    },
                    None => Err(AccountingError::AccountOverFunded(signer.to_owned(), amount)),
                }
            },
            None => {
                let key = signer.to_owned();
                proof {
                    lemma_map_of_absent(pre, signer@);
                    lemma_map_of_push(pre, (key, amount));
                }
                let mut grown: Vec<(String, u64)> = Vec::new();
                std::mem::swap(&mut grown, &mut self.entries);
                grown.push((key, amount));
                self.entries = grown;
                Ok(Tx::Deposit { account: signer.to_owned(), amount })
            },
        }
    }

    /// Withdraws `amount` from the `signer` account. Fails, leaving the
    /// table untouched, when the account has no entry or holds less than
    /// `amount`.
    pub fn withdraw(&mut self, signer: &str, amount: u64) -> (r: Result<Tx, AccountingError>)
        ensures
            can_withdraw(old(self)@, signer@, amount) ==> {
                &&& r matches Ok(t) && t@ == (TxView::Withdraw { account: signer@, amount })
                &&& final(self)@ == withdrawn(old(self)@, signer@, amount)
            },
            !old(self)@.contains_key(signer@) ==> {
                &&& r matches Err(e) && e@ == AccountingErrorView::AccountNotFound(signer@)
                &&& final(self)@ == old(self)@
            },
            old(self)@.contains_key(signer@) && amount > old(self)@[signer@] ==> {
                &&& r matches Err(e) && e@ == AccountingErrorView::AccountUnderFunded(
                    signer@,
                    amount,
                )
                &&& final(self)@ == old(self)@
            },
    {
        proof {
            use_type_invariant(&*self);
        }
        let ghost pre = self.entries@;
        match self.find(signer) {
            Some(i) => {
                proof {
                    lemma_map_of_index(pre, i as int);
                }
                match self.entries[i].1.checked_sub(amount) {
                    Some(new_balance) => {
                        let key = signer.to_owned();
                        proof {
                            lemma_map_of_update(pre, i as int, (key, new_balance));
                        }
                        let mut updated: Vec<(String, u64)> = Vec::new();
                        std::mem::swap(&mut updated, &mut self.entries);
                        updated[i] = (key, new_balance);
                        self.entries = updated;
                        Ok(Tx::Withdraw { account: signer.to_owned(), amount })
                    },
                    None => Err(AccountingError::AccountUnderFunded(signer.to_owned(), amount)),
                }
            },
            None => {
                proof {
                    lemma_map_of_absent(pre, signer@);
                }
                Err(AccountingError::AccountNotFound(signer.to_owned()))
            },
        }
    }

    /// Transfers `amount` from `sender` to `recipient`, strictly as a
    /// withdrawal followed by a deposit, and returns the two records in that
    /// order. Both accounts must already exist: unlike a standalone deposit,
    /// a transfer never creates the recipient. If the deposit step would
    /// overflow the recipient's balance, the withdrawn amount is credited
    /// back to the sender — a refund that cannot itself fail, since it
    /// restores the sender's pre-transfer balance — and the table is left
    /// exactly as if the transfer had never run.
    pub fn send(&mut self, sender: &str, recipient: &str, amount: u64) -> (r: Result<
        (Tx, Tx),
        AccountingError,
    >)
        ensures
            !old(self)@.contains_key(sender@) ==> {
                &&& r matches Err(e) && e@ == AccountingErrorView::AccountNotFound(sender@)
                &&& final(self)@ == old(self)@
            },
            old(self)@.contains_key(sender@) && !old(self)@.contains_key(recipient@) ==> {
                &&& r matches Err(e) && e@ == AccountingErrorView::AccountNotFound(recipient@)
                &&& final(self)@ == old(self)@
            },
            old(self)@.contains_key(sender@) && old(self)@.contains_key(recipient@) && !can_withdraw(
                old(self)@,
                sender@,
                amount,
            ) ==> {
                &&& r matches Err(e) && e@ == AccountingErrorView::AccountUnderFunded(
                    sender@,
                    amount,
                )
                &&& final(self)@ == old(self)@
            },
            old(self)@.contains_key(recipient@) && can_withdraw(old(self)@, sender@, amount)
                && !can_deposit(withdrawn(old(self)@, sender@, amount), recipient@, amount) ==> {
                &&& r matches Err(e) && e@ == AccountingErrorView::AccountOverFunded(
                    recipient@,
                    amount,
                )
                &&& final(self)@ == old(self)@
            },
            old(self)@.contains_key(recipient@) && can_withdraw(old(self)@, sender@, amount)
                && can_deposit(withdrawn(old(self)@, sender@, amount), recipient@, amount) ==> {
                &&& r matches Ok(pair) && pair.0@ == (TxView::Withdraw {
                    account: sender@,
                    amount,
                }) && pair.1@ == (TxView::Deposit { account: recipient@, amount })
                &&& final(self)@ == deposited(
                    withdrawn(old(self)@, sender@, amount),
                    recipient@,
                    amount,
                )
            },
    {
        if self.balance_of(sender).is_none() {
            return Err(AccountingError::AccountNotFound(sender.to_owned()));
        }
        if self.balance_of(recipient).is_none() {
            return Err(AccountingError::AccountNotFound(recipient.to_owned()));
        }
        let withdraw_tx = match self.withdraw(sender, amount) {
            Ok(t) => t,
            Err(_) => {
                return Err(AccountingError::AccountUnderFunded(sender.to_owned(), amount));
            },
        };
        match self.deposit(recipient, amount) {
            Ok(deposit_tx) => Ok((withdraw_tx, deposit_tx)),
            Err(_) => {
                proof {
                    // The refund cannot overflow: it restores the sender's
                    // balance from before the withdrawal.
                    assert(can_deposit(self@, sender@, amount));
                }
                match self.deposit(sender, amount) {
                    Ok(_) => {
                        proof {
                            assert(self@ =~= old(self)@);
                        }
                        Err(AccountingError::AccountOverFunded(recipient.to_owned(), amount))
                    },
                    Err(refund_error) => Err(refund_error),
                }
            },
        }
    }
}

} // verus!
