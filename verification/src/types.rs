//! Plain data carried by one input record.

use vstd::prelude::*;

verus! {

/// Identifier of a client account.
pub type ClientId = u16;

/// Identifier of a deposit or withdrawal record.
pub type TransactionId = u32;

/// The action kind carried by one input record.
#[derive(Debug, Clone, Copy, PartialEq, Eq, Structural)]
pub enum Action {
    Deposit,
    Withdrawal,
    Dispute,
    Resolve,
    Chargeback,
}

/// One parsed input record. Amounts are in ten-thousandths of the currency
/// unit (four decimal places); deposits and withdrawals carry one, the three
/// dispute-lifecycle actions reference an earlier record by `id` instead.
#[derive(Debug, Clone, Copy)]
pub struct Transaction {
    pub action: Action,
    pub client_id: ClientId,
    pub id: TransactionId,
    pub amount: Option<u64>,
}

} // verus!
