//! The sum, per client, of the amounts of currently disputed history
//! entries. The account manager keeps this sum below each account's held
//! bucket, which is what lets resolve and chargeback debit that bucket
//! without underflow.

use vstd::prelude::*;

use crate::account_manager::TxCacheEntry;
use crate::types::{ClientId, TransactionId};

verus! {

broadcast use vstd::set::group_set_axioms, vstd::map::group_map_axioms;

/// Contribution of one history entry to the held funds of client `c`.
pub open spec fn held_contrib(e: TxCacheEntry, c: ClientId) -> int {
    if e.client_id == c && e.disputed {
        e.amount as int
    } else {
        0
    }
}

/// Sum of the disputed amounts that the history `h` records for client `c`.
pub open spec fn held_sum(h: Map<TransactionId, TxCacheEntry>, c: ClientId) -> int
    decreases h.dom().len(),
{
    if !h.dom().finite() || h.dom().len() == 0 {
        0
    } else {
        let k = h.dom().choose();
        held_contrib(h[k], c) + held_sum(h.remove(k), c)
    }
}

/// The sum is never negative.
pub proof fn lemma_held_sum_nonneg(h: Map<TransactionId, TxCacheEntry>, c: ClientId)
    requires
        h.dom().finite(),
    ensures
        held_sum(h, c) >= 0,
    decreases h.dom().len(),
{
    if h.dom().len() != 0 {
        let k = h.dom().choose();
        lemma_held_sum_nonneg(h.remove(k), c);
    }
}

/// Splitting off any one entry: the sum is that entry's contribution plus
/// the sum over the rest.
pub proof fn lemma_held_sum_remove(h: Map<TransactionId, TxCacheEntry>, c: ClientId, k: TransactionId)
    requires
        h.dom().finite(),
        h.dom().contains(k),
    ensures
        held_sum(h, c) == held_contrib(h[k], c) + held_sum(h.remove(k), c),
    decreases h.dom().len(),
{
    let k0 = h.dom().choose();
    assert(h.dom().len() != 0);
    if k0 == k {
    } else {
        let h0 = h.remove(k0);
        lemma_held_sum_remove(h0, c, k);
        lemma_held_sum_remove(h.remove(k), c, k0);
        assert(h0.remove(k) =~= h.remove(k).remove(k0));
    }
}

/// Inserting (or overwriting) an entry changes the sum by the new
/// contribution minus the contribution that was overwritten.
pub proof fn lemma_held_sum_insert(
    h: Map<TransactionId, TxCacheEntry>,
    c: ClientId,
    k: TransactionId,
    v: TxCacheEntry,
)
    requires
        h.dom().finite(),
    ensures
        held_sum(h.insert(k, v), c) == held_sum(h, c) + held_contrib(v, c) - (if h.dom().contains(
            k,
        ) {
            held_contrib(h[k], c)
        } else {
            0
        }),
{
    let h1 = h.insert(k, v);
    lemma_held_sum_remove(h1, c, k);
    if h.dom().contains(k) {
        lemma_held_sum_remove(h, c, k);
        assert(h1.remove(k) =~= h.remove(k));
    } else {
        assert(h1.remove(k) =~= h);
    }
}

/// A disputed entry's amount never exceeds its client's sum.
pub proof fn lemma_held_contrib_le_sum(
    h: Map<TransactionId, TxCacheEntry>,
    c: ClientId,
    k: TransactionId,
)
    requires
        h.dom().finite(),
        h.dom().contains(k),
    ensures
        held_contrib(h[k], c) <= held_sum(h, c),
{
    lemma_held_sum_remove(h, c, k);
    lemma_held_sum_nonneg(h.remove(k), c);
}

} // verus!
