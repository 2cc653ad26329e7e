use accounting_demo::account::{Account, AccountError};

#[test]
fn deposit_increases_total_and_available_amounts() {
    let mut account = Account::new();
    assert_eq!(account.available(), 0);
    assert_eq!(account.total(), 0);
    assert_eq!(account.disputed(), 0);

    let amount: u64 = 10000;
    account.deposit(amount);

    assert_eq!(account.available(), amount);
    assert_eq!(account.total(), amount);
    assert_eq!(account.disputed(), 0);
}

#[test]
fn withdrawal_fails_if_not_enough_funds() {
    let mut account = Account::new();

    let amount: u64 = 10000;
    let err = account.withdraw(amount).unwrap_err();
    assert_eq!(
        err,
        AccountError::InsufficientFunds {
            requested: amount,
            available: 0
        }
    );
}

#[test]
fn withdrawal_fails_if_not_enough_funds_due_to_dispute() {
    let mut account = Account::new();

    let amount: u64 = 10000;
    account.deposit(amount);
    let dispute_amount: u64 = 4000;
    assert!(account.dispute(dispute_amount).is_ok());

    let err = account.withdraw(amount).unwrap_err();
    let expected_available: u64 = 6000;
    assert_eq!(
        err,
        AccountError::InsufficientFunds {
            requested: amount,
            available: expected_available
        }
    );
}

#[test]
fn withdrawal_succeeds_if_enough_funds() {
    let mut account = Account::new();

    let deposit_amount: u64 = 10000;
    account.deposit(deposit_amount);

    let withdrawal_amount: u64 = 4000;
    assert!(account.withdraw(withdrawal_amount).is_ok());

    let expected_remaining_amount: u64 = 6000;
    assert_eq!(account.available(), expected_remaining_amount);
    assert_eq!(account.total(), expected_remaining_amount);
    assert_eq!(account.disputed(), 0);
}

#[test]
fn dispute_locks_funds() {
    let mut account = Account::new();

    let deposit_amount: u64 = 10000;
    account.deposit(deposit_amount);
    let dispute_amount: u64 = 4000;
    assert!(account.dispute(dispute_amount).is_ok());

    let expected_available: u64 = 6000;
    assert_eq!(account.available(), expected_available);
    assert_eq!(account.total(), deposit_amount);
    assert_eq!(account.disputed(), dispute_amount);
}

#[test]
fn dispute_fails_if_insufficient_funds() {
    let mut account = Account::new();

    let deposit_amount: u64 = 10000;
    account.deposit(deposit_amount);
    let dispute_amount: u64 = 14000;
    let err = account.dispute(dispute_amount).unwrap_err();
    assert_eq!(
        err,
        AccountError::InsufficientFunds {
            requested: dispute_amount,
            available: deposit_amount
        }
    );
}

#[test]
fn resolve_unlocks_funds() {
    let mut account = Account::new();

    let deposit_amount: u64 = 10000;
    account.deposit(deposit_amount);
    let dispute_amount: u64 = 4000;
    assert!(account.dispute(dispute_amount).is_ok());
    account.resolve(dispute_amount);

    assert_eq!(account.available(), deposit_amount);
    assert_eq!(account.total(), deposit_amount);
    assert_eq!(account.disputed(), 0);
}

#[test]
fn chargeback_removes_disputed_funds() {
    let mut account = Account::new();

    let deposit_amount: u64 = 10000;
    account.deposit(deposit_amount);
    let dispute_amount: u64 = 4000;
    assert!(account.dispute(dispute_amount).is_ok());
    account.chargeback(dispute_amount);

    let expected_available: u64 = 6000;
    assert_eq!(account.available(), expected_available);
    assert_eq!(account.total(), expected_available);
    assert_eq!(account.disputed(), 0);
    assert!(account.locked());
}

#[test]
fn after_chargeback_account_is_locked() {
    let mut account = Account::new();

    let deposit_amount: u64 = 10000;
    account.deposit(deposit_amount);
    let dispute_amount: u64 = 4000;
    assert!(account.dispute(dispute_amount).is_ok());
    account.chargeback(dispute_amount);

    let err = account.withdraw(deposit_amount).unwrap_err();
    assert_eq!(err, AccountError::Locked);
}

#[test]
fn locked_account_refuses_dispute_but_accepts_deposit() {
    let mut account = Account::new();
    account.deposit(10000);
    assert!(account.dispute(10000).is_ok());
    account.chargeback(10000);
    assert!(account.locked());

    let err = account.dispute(1).unwrap_err();
    assert_eq!(err, AccountError::Locked);

    account.deposit(5000);
    assert_eq!(account.available(), 5000);
    assert_eq!(account.total(), 5000);
    assert!(account.locked());
}

#[test]
fn dispute_then_resolve_keeps_total_constant() {
    let mut account = Account::new();
    account.deposit(25000);
    assert_eq!(account.total(), 25000);
    assert!(account.dispute(15000).is_ok());
    assert_eq!(account.total(), 25000);
    account.resolve(15000);
    assert_eq!(account.total(), 25000);
    assert_eq!(account.available(), 25000);
}
