//! Ledger-wide properties of the dispute lifecycle, stated over the
//! spec-level transition functions and proved once and for all. Together
//! with `lemma_step_preserves_wf` these cover every reachable state: the
//! manager's operations each ensure that their outcome equals the
//! corresponding transition function's.

use vstd::prelude::*;

use crate::account::Account;
use crate::account_manager::{
    lemma_step_preserves_wf, maps_wf, spec_account_or_zero, spec_chargeback, spec_deposit_fits,
    spec_dispute, spec_locked, spec_resolve, spec_step, spec_total_of, AccountManagerError,
    TxCacheEntry,
};
use crate::held_sum::lemma_held_contrib_le_sum;
use crate::types::{Action, ClientId, Transaction, TransactionId};

verus! {

/// Conservation: one dispatched record changes a client's total funds only
/// on a successful deposit (up by the amount), a successful withdrawal
/// (down by the amount) or a successful chargeback (down by the disputed
/// entry's amount). Disputes, resolves, refused records and records aimed
/// at other clients leave every total as it was.
pub proof fn lemma_step_conservation(
    h: Map<TransactionId, TxCacheEntry>,
    a: Map<ClientId, Account>,
    t: Transaction,
)
    requires
        maps_wf(h, a),
        spec_deposit_fits(a, t),
    ensures
        ({
            let (h2, a2, r) = spec_step(h, a, t);
            &&& forall|c: ClientId|
                c != t.client_id ==> #[trigger] spec_total_of(a2, c) == spec_total_of(a, c)
            &&& t.action is Deposit && t.amount is Some ==> spec_total_of(a2, t.client_id)
                == spec_total_of(a, t.client_id) + t.amount->0
            &&& t.action is Withdrawal && t.amount is Some && r is Ok ==> spec_total_of(
                a2,
                t.client_id,
            ) == spec_total_of(a, t.client_id) - t.amount->0
            &&& t.action is Withdrawal && r is Err ==> spec_total_of(a2, t.client_id)
                == spec_total_of(a, t.client_id)
            &&& t.amount is None && (t.action is Deposit || t.action is Withdrawal) ==> a2 == a
            &&& t.action is Dispute || t.action is Resolve ==> spec_total_of(a2, t.client_id)
                == spec_total_of(a, t.client_id)
            &&& t.action is Chargeback && r is Ok ==> spec_total_of(a2, t.client_id)
                == spec_total_of(a, t.client_id) - h[t.id].amount
            &&& t.action is Chargeback && r is Err ==> a2 == a
        }),
{
    let (h2, a2, r) = spec_step(h, a, t);
    match (t.action, t.amount) {
        (Action::Resolve, _) => {
            if r is Ok {
                lemma_held_contrib_le_sum(h, t.client_id, t.id);
            }
        },
        (Action::Chargeback, _) => {
            if r is Ok {
                lemma_held_contrib_le_sum(h, t.client_id, t.id);
            }
        },
        _ => {},
    }
}

/// Non-negativity: balances are unsigned machine integers, so no bucket is
/// ever negative; the substance is that nothing ever wraps around. A
/// withdrawal or dispute that would overdraw the available bucket is
/// refused rather than clamped, and every dispatched record keeps each
/// account's buckets summing within the representable range.
pub proof fn lemma_step_nonnegative(
    h: Map<TransactionId, TxCacheEntry>,
    a: Map<ClientId, Account>,
    t: Transaction,
)
    requires
        maps_wf(h, a),
        spec_deposit_fits(a, t),
    ensures
        ({
            let a2 = spec_step(h, a, t).1;
            forall|c: ClientId|
                {
                    let acct = #[trigger] spec_account_or_zero(a2, c);
                    0 <= acct.available && 0 <= acct.disputed && acct.spec_total() <= u64::MAX
                }
        }),
{
    lemma_step_preserves_wf(h, a, t);
}

/// Lock monotonicity: once a client's account is locked, it stays locked
/// through any further dispatched record, whatever the record and whoever
/// issued it.
pub proof fn lemma_step_locks_monotone(
    h: Map<TransactionId, TxCacheEntry>,
    a: Map<ClientId, Account>,
    t: Transaction,
)
    ensures
        forall|c: ClientId|
            spec_locked(a, c) ==> #[trigger] spec_locked(spec_step(h, a, t).1, c),
{
}

/// Dispute exclusivity: after a successful dispute of `tx_id`, no second
/// dispute of `tx_id` can succeed before a resolve; the owner's own retry
/// is refused as already disputed, and the retry changes nothing.
pub proof fn lemma_dispute_exclusive(
    h: Map<TransactionId, TxCacheEntry>,
    a: Map<ClientId, Account>,
    tx_id: TransactionId,
    client_id: ClientId,
    other: ClientId,
)
    requires
        spec_dispute(h, a, tx_id, client_id).2 is Ok,
    ensures
        ({
            let (h2, a2, _) = spec_dispute(h, a, tx_id, client_id);
            &&& !(spec_dispute(h2, a2, tx_id, other).2 is Ok)
            &&& spec_dispute(h2, a2, tx_id, client_id) == (
                h2,
                a2,
                Err::<(), AccountManagerError>(
                    (AccountManagerError::AlreadyDisputed { id: tx_id }),
                ),
            )
        }),
{
}

/// Idempotent removal: after a successful chargeback of `tx_id`, any
/// further dispute, resolve or chargeback referencing `tx_id`, by any
/// client, fails with `TransactionNotFound` and leaves the ledger
/// unchanged.
pub proof fn lemma_chargeback_then_not_found(
    h: Map<TransactionId, TxCacheEntry>,
    a: Map<ClientId, Account>,
    tx_id: TransactionId,
    client_id: ClientId,
    other: ClientId,
)
    requires
        spec_chargeback(h, a, tx_id, client_id).2 is Ok,
    ensures
        ({
            let (h2, a2, _) = spec_chargeback(h, a, tx_id, client_id);
            let e = Err::<(), AccountManagerError>(
                (AccountManagerError::TransactionNotFound { id: tx_id }),
            );
            &&& spec_dispute(h2, a2, tx_id, other) == (h2, a2, e)
            &&& spec_resolve(h2, a2, tx_id, other) == (h2, a2, e)
            &&& spec_chargeback(h2, a2, tx_id, other) == (h2, a2, e)
        }),
{
}

/// Authorization: a dispute, resolve or chargeback referencing an entry
/// owned by one client, issued by a different client, always fails with
/// `Unauthorized` and changes nothing — in particular both clients'
/// accounts are left exactly as they were.
pub proof fn lemma_unauthorized(
    h: Map<TransactionId, TxCacheEntry>,
    a: Map<ClientId, Account>,
    tx_id: TransactionId,
    client_id: ClientId,
)
    requires
        h.dom().contains(tx_id),
        h[tx_id].client_id != client_id,
    ensures
        ({
            let e = Err::<(), AccountManagerError>(
                (AccountManagerError::Unauthorized { client_id, owner_id: h[tx_id].client_id }),
            );
            &&& spec_dispute(h, a, tx_id, client_id) == (h, a, e)
            &&& spec_resolve(h, a, tx_id, client_id) == (h, a, e)
            &&& spec_chargeback(h, a, tx_id, client_id) == (h, a, e)
        }),
{
}

} // verus!
