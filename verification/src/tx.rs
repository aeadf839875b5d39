use vstd::prelude::*;

verus! {

/// An immutable record of one completed balance change. A transfer is
/// represented as exactly two records, a `Withdraw` then a `Deposit`, so the
/// full history can be replayed with these two shapes alone.
#[derive(Debug, PartialEq, Eq)]
pub enum Tx {
    Deposit { account: String, amount: u64 },
    Withdraw { account: String, amount: u64 },
}

/// The mathematical shape of a [`Tx`]: the same variants with the account
/// identifier abstracted to its character sequence.
pub enum TxView {
    Deposit { account: Seq<char>, amount: u64 },
    Withdraw { account: Seq<char>, amount: u64 },
}

impl View for Tx {
    type V = TxView;

    open spec fn view(&self) -> TxView {
        match self {
            Tx::Deposit { account, amount } => (TxView::Deposit {
                account: account@,
                amount: *amount,
            }),
            Tx::Withdraw { account, amount } => (TxView::Withdraw {
                account: account@,
                amount: *amount,
            }),
        }
    }
}

/// The abstract balance table: account identifiers to balances.
pub type BalanceTable = Map<Seq<char>, u64>;

/// Whether depositing `amount` into `account` succeeds on table `m`: a
/// missing account is created (which cannot overflow), an existing one must
/// have room for the sum.
pub open spec fn can_deposit(m: BalanceTable, account: Seq<char>, amount: u64) -> bool {
    !m.contains_key(account) || m[account] + amount <= u64::MAX
}

/// The table after a successful deposit of `amount` into `account`.
pub open spec fn deposited(m: BalanceTable, account: Seq<char>, amount: u64) -> BalanceTable {
    if !m.contains_key(account) {
        m.insert(account, amount)
    } else {
        m.insert(account, (m[account] + amount) as u64)
    }
}

/// Whether withdrawing `amount` from `account` succeeds on table `m`: the
/// account must exist and hold at least `amount`.
pub open spec fn can_withdraw(m: BalanceTable, account: Seq<char>, amount: u64) -> bool {
    m.contains_key(account) && amount <= m[account]
}

/// The table after a successful withdrawal of `amount` from `account`.
pub open spec fn withdrawn(m: BalanceTable, account: Seq<char>, amount: u64) -> BalanceTable {
    m.insert(account, (m[account] - amount) as u64)
}

/// The effect of replaying one transaction record on a balance table:
/// deposits add, withdrawals subtract.
pub open spec fn apply_tx(m: BalanceTable, t: TxView) -> BalanceTable {
    match t {
        TxView::Deposit { account, amount } => deposited(m, account, amount),
        TxView::Withdraw { account, amount } => withdrawn(m, account, amount),
    }
}

/// The balance table obtained by replaying a whole log of transaction
/// records, in order, against a fresh empty table.
pub open spec fn replay(log: Seq<TxView>) -> BalanceTable
    decreases log.len(),
{
    if log.len() == 0 {
        Map::empty()
    } else {
        apply_tx(replay(log.drop_last()), log.last())
    }
}

/// Replay invariant, one step: extending a log by one record and replaying
/// it is the same as applying that record to the replay of the shorter log.
/// Together with the ledger operations' postconditions — each successful
/// operation takes the table from `m` to `apply_tx(m, t)` for the record `t`
/// it returns, and `send` to `apply_tx(apply_tx(m, w), d)` for its pair —
/// this gives, by induction over the operation sequence, that replaying the
/// full ordered log of returned records from an empty table reproduces the
/// final table exactly.
pub proof fn lemma_replay_extend(log: Seq<TxView>, t: TxView)
    ensures
        replay(log.push(t)) == apply_tx(replay(log), t),
{
    assert(log.push(t).drop_last() =~= log);
}

/// Replay invariant for a transfer's pair of records: appending the
/// `Withdraw` record `w` and then the `Deposit` record `d` to the log
/// replays to the two records applied in that order.
pub proof fn lemma_replay_extend_pair(log: Seq<TxView>, w: TxView, d: TxView)
    ensures
        replay(log.push(w).push(d)) == apply_tx(apply_tx(replay(log), w), d),
{
    lemma_replay_extend(log, w);
    lemma_replay_extend(log.push(w), d);
}

} // verus!
