use ledger::accounts::Accounts;
use ledger::errors::AccountingError;
use ledger::tx::Tx;

#[test]
fn test_accounts_withdraw_underfunded() {
    let mut accounts = Accounts::new();
    accounts.deposit("alice", 100).unwrap();
    let error = accounts.withdraw("alice", 200);
    let expected = Err(AccountingError::AccountUnderFunded("alice".to_string(), 200));
    assert_eq!(error, expected);
}

#[test]
fn test_accounts_deposit_overfunded() {
    let mut accounts = Accounts::new();
    accounts.deposit("alice", 100).unwrap();
    let error = accounts.deposit("alice", u64::MAX);
    let expected = Err(AccountingError::AccountOverFunded("alice".to_string(), u64::MAX));
    assert_eq!(error, expected);
}

#[test]
fn test_accounts_not_found() {
    let mut accounts = Accounts::new();
    let error = accounts.withdraw("alice", u64::MAX);
    let expected = Err(AccountingError::AccountNotFound("alice".to_string()));
    assert_eq!(error, expected);
}

#[test]
fn test_accounts_deposit_success() {
    let mut accounts = Accounts::new();
    accounts.deposit("alice", 100).unwrap();
    let tx = accounts.deposit("alice", 100);
    let expected = Ok(Tx::Deposit {
        account: "alice".to_string(),
        amount: 100,
    });
    assert_eq!(tx, expected);
}

#[test]
fn test_accounts_withdraw_success() {
    let mut accounts = Accounts::new();
    accounts.deposit("alice", u64::MAX).unwrap();
    let tx = accounts.withdraw("alice", u64::MAX);
    let expected = Ok(Tx::Withdraw {
        account: "alice".to_string(),
        amount: u64::MAX,
    });
    assert_eq!(tx, expected);
}

#[test]
fn test_send_account_not_found() {
    let mut accounts = Accounts::new();
    let got = accounts.send("alice", "bob", u64::MAX);
    let expected = Err(AccountingError::AccountNotFound("alice".to_string()));
    assert_eq!(got, expected);

    accounts.deposit("alice", 100).unwrap();
    let got = accounts.send("alice", "bob", u64::MAX);
    let expected = Err(AccountingError::AccountNotFound("bob".to_string()));
    assert_eq!(got, expected);
}

#[test]
fn test_send_account_withdraw_error() {
    let mut accounts = Accounts::new();
    accounts.deposit("alice", 100).unwrap();
    accounts.deposit("bob", 100).unwrap();
    let got = accounts.send("alice", "bob", u64::MAX);
    let expected = Err(AccountingError::AccountUnderFunded("alice".to_string(), u64::MAX));
    assert_eq!(got, expected);
}

#[test]
fn test_send_account_deposit_error() {
    let mut accounts = Accounts::new();
    accounts.deposit("alice", u64::MAX).unwrap();
    accounts.deposit("bob", 100).unwrap();
    let got = accounts.send("alice", "bob", u64::MAX);
    let expected = Err(AccountingError::AccountOverFunded("bob".to_string(), u64::MAX));
    assert_eq!(got, expected);

    // accounts should be untouched
    let amount = accounts.balance_of("alice").unwrap();
    assert_eq!(amount, u64::MAX);
    let amount = accounts.balance_of("bob").unwrap();
    assert_eq!(amount, 100);
}

#[test]
fn test_send_account_success() {
    let mut accounts = Accounts::new();
    accounts.deposit("alice", 100).unwrap();
    accounts.deposit("bob", 100).unwrap();
    let got = accounts.send("alice", "bob", 100);
    let expected = Ok((
        Tx::Withdraw {
            account: "alice".to_string(),
            amount: 100,
        },
        Tx::Deposit {
            account: "bob".to_string(),
            amount: 100,
        },
    ));
    assert_eq!(got, expected);
}
