use vstd::prelude::*;

verus! {

/// The ways a ledger operation can fail. Each variant carries the account
/// identifier it concerns and, where one was attempted, the amount, so a
/// caller can render a precise message.
#[derive(Debug, PartialEq, Eq)]
pub enum AccountingError {
    /// A withdrawal or transfer named an account with no entry.
    AccountNotFound(String),
    /// The withdrawal amount exceeds the current balance.
    AccountUnderFunded(String, u64),
    /// The deposit would overflow the balance's integer width.
    AccountOverFunded(String, u64),
}

/// The mathematical shape of an [`AccountingError`]: the same variants with
/// the account identifier abstracted to its character sequence.
pub enum AccountingErrorView {
    AccountNotFound(Seq<char>),
    AccountUnderFunded(Seq<char>, u64),
    AccountOverFunded(Seq<char>, u64),
}

impl View for AccountingError {
    type V = AccountingErrorView;

    open spec fn view(&self) -> AccountingErrorView {
        match self {
            AccountingError::AccountNotFound(account) => AccountingErrorView::AccountNotFound(
                account@,
            ),
            AccountingError::AccountUnderFunded(account, amount) => (
            AccountingErrorView::AccountUnderFunded(account@, *amount)),
            AccountingError::AccountOverFunded(account, amount) => (
            AccountingErrorView::AccountOverFunded(account@, *amount)),
        }
    }
}

} // verus!
