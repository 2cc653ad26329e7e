use accounting_demo::account_manager::{AccountManager, AccountManagerError};

#[test]
fn dispute_fails_if_transaction_is_not_owned_by_client() {
    let mut account_manager = AccountManager::new();

    let tx_id: u32 = 2;
    let client_id: u16 = 1;
    let amount: u64 = 10000;
    account_manager.deposit(tx_id, client_id, amount);

    let other_tx_id: u32 = 3;
    let other_client_id: u16 = 2;
    account_manager.deposit(other_tx_id, other_client_id, amount);

    assert!(account_manager.dispute(tx_id, other_client_id).is_err());

    let accounts = account_manager.accounts();
    assert_eq!(accounts.len(), 2);
    assert_eq!(accounts[0].1.available(), amount);
    assert_eq!(accounts[0].1.total(), amount);
    assert_eq!(accounts[0].1.disputed(), 0);
    assert_eq!(accounts[1].1.available(), amount);
    assert_eq!(accounts[1].1.total(), amount);
    assert_eq!(accounts[1].1.disputed(), 0);
}

#[test]
fn dispute_transaction() {
    let mut account_manager = AccountManager::new();

    let tx_id: u32 = 2;
    let client_id: u16 = 1;
    let amount: u64 = 10000;
    account_manager.deposit(tx_id, client_id, amount);
    assert!(account_manager.dispute(tx_id, client_id).is_ok());

    let accounts = account_manager.accounts();
    assert_eq!(accounts.len(), 1);
    assert_eq!(accounts[0].1.available(), 0);
    assert_eq!(accounts[0].1.total(), amount);
    assert_eq!(accounts[0].1.disputed(), amount);
}

#[test]
fn resolve_disputed_transaction() {
    let mut account_manager = AccountManager::new();

    let tx_id: u32 = 2;
    let client_id: u16 = 1;
    let amount: u64 = 10000;
    account_manager.deposit(tx_id, client_id, amount);
    assert!(account_manager.dispute(tx_id, client_id).is_ok());
    assert!(account_manager.resolve(tx_id, client_id).is_ok());

    let accounts = account_manager.accounts();
    assert_eq!(accounts.len(), 1);
    assert_eq!(accounts[0].1.available(), amount);
    assert_eq!(accounts[0].1.total(), amount);
    assert_eq!(accounts[0].1.disputed(), 0);
}

#[test]
fn resolution_fails_if_dispute_failed() {
    let mut account_manager = AccountManager::new();

    let tx_id1: u32 = 2;
    let tx_id2: u32 = 3;
    let client_id: u16 = 1;
    let amount: u64 = 10000;
    account_manager.deposit(tx_id1, client_id, amount);
    assert!(account_manager.withdraw(client_id, amount).is_ok());
    account_manager.deposit(tx_id2, client_id, amount);
    let err = account_manager.resolve(tx_id1, client_id).unwrap_err();
    assert_eq!(err, AccountManagerError::Undisputed { id: tx_id1 });

    let accounts = account_manager.accounts();
    assert_eq!(accounts.len(), 1);
    assert_eq!(accounts[0].1.available(), amount);
    assert_eq!(accounts[0].1.total(), amount);
    assert_eq!(accounts[0].1.disputed(), 0);
}

#[test]
fn resolve_fails_if_transaction_is_from_other_client() {
    let mut account_manager = AccountManager::new();

    let tx_id: u32 = 2;
    let client_id: u16 = 1;
    let other_client_id: u16 = 2;
    let amount: u64 = 10000;
    account_manager.deposit(tx_id, client_id, amount);
    assert!(account_manager.dispute(tx_id, client_id).is_ok());
    assert!(account_manager.resolve(tx_id, other_client_id).is_err());

    let accounts = account_manager.accounts();
    assert_eq!(accounts.len(), 1);
    assert_eq!(accounts[0].1.available(), 0);
    assert_eq!(accounts[0].1.total(), amount);
    assert_eq!(accounts[0].1.disputed(), amount);
}

#[test]
fn resolve_fails_if_transaction_is_not_disputed() {
    let mut account_manager = AccountManager::new();

    let tx_id: u32 = 2;
    let client_id: u16 = 1;
    let amount: u64 = 10000;
    account_manager.deposit(tx_id, client_id, amount);
    assert!(account_manager.resolve(tx_id, client_id).is_err());

    let accounts = account_manager.accounts();
    assert_eq!(accounts.len(), 1);
    assert_eq!(accounts[0].1.available(), amount);
    assert_eq!(accounts[0].1.total(), amount);
    assert_eq!(accounts[0].1.disputed(), 0);
}

#[test]
fn dispute_of_unknown_transaction_fails_not_found() {
    let mut account_manager = AccountManager::new();
    let err = account_manager.dispute(9, 1).unwrap_err();
    assert_eq!(err, AccountManagerError::TransactionNotFound { id: 9 });
    assert_eq!(account_manager.accounts().len(), 0);
}

#[test]
fn duplicate_dispute_fails_already_disputed() {
    let mut account_manager = AccountManager::new();
    account_manager.deposit(5, 1, 20000);
    assert!(account_manager.dispute(5, 1).is_ok());
    let err = account_manager.dispute(5, 1).unwrap_err();
    assert_eq!(err, AccountManagerError::AlreadyDisputed { id: 5 });

    let accounts = account_manager.accounts();
    assert_eq!(accounts[0].1.disputed(), 20000);
    assert_eq!(accounts[0].1.total(), 20000);
}

#[test]
fn unauthorized_dispute_reports_both_clients() {
    let mut account_manager = AccountManager::new();
    account_manager.deposit(5, 1, 20000);
    let err = account_manager.dispute(5, 2).unwrap_err();
    assert_eq!(
        err,
        AccountManagerError::Unauthorized {
            client_id: 2,
            owner_id: 1
        }
    );
}

#[test]
fn after_chargeback_references_fail_not_found() {
    let mut account_manager = AccountManager::new();
    account_manager.deposit(5, 1, 20000);
    assert!(account_manager.dispute(5, 1).is_ok());
    assert!(account_manager.chargeback(5, 1).is_ok());

    let err = account_manager.dispute(5, 1).unwrap_err();
    assert_eq!(err, AccountManagerError::TransactionNotFound { id: 5 });
    let err = account_manager.resolve(5, 1).unwrap_err();
    assert_eq!(err, AccountManagerError::TransactionNotFound { id: 5 });
    let err = account_manager.chargeback(5, 1).unwrap_err();
    assert_eq!(err, AccountManagerError::TransactionNotFound { id: 5 });

    let accounts = account_manager.accounts();
    assert_eq!(accounts[0].1.available(), 0);
    assert_eq!(accounts[0].1.total(), 0);
    assert!(accounts[0].1.locked());
}

#[test]
fn chargeback_locks_account_for_good() {
    let mut account_manager = AccountManager::new();
    account_manager.deposit(1, 1, 30000);
    assert!(account_manager.dispute(1, 1).is_ok());
    assert!(account_manager.chargeback(1, 1).is_ok());
    assert!(account_manager.accounts()[0].1.locked());

    let err = account_manager.withdraw(1, 1).unwrap_err();
    assert!(matches!(err, AccountManagerError::Account(_)));
    account_manager.deposit(2, 1, 10000);
    assert!(account_manager.accounts()[0].1.locked());
    assert_eq!(account_manager.accounts()[0].1.available(), 10000);
}

#[test]
fn deposit_with_same_id_overwrites_history_entry() {
    let mut account_manager = AccountManager::new();
    account_manager.deposit(1, 1, 10000);
    account_manager.deposit(1, 1, 5000);
    assert_eq!(account_manager.accounts()[0].1.available(), 15000);

    assert!(account_manager.dispute(1, 1).is_ok());
    let accounts = account_manager.accounts();
    assert_eq!(accounts[0].1.disputed(), 5000);
    assert_eq!(accounts[0].1.available(), 10000);
    assert_eq!(accounts[0].1.total(), 15000);
}

#[test]
fn withdrawal_from_unknown_client_creates_empty_account() {
    let mut account_manager = AccountManager::new();
    let err = account_manager.withdraw(3, 10000).unwrap_err();
    assert!(matches!(err, AccountManagerError::Account(_)));
    let accounts = account_manager.accounts();
    assert_eq!(accounts.len(), 1);
    assert_eq!(accounts[0].0, 3);
    assert_eq!(accounts[0].1.available(), 0);
}
