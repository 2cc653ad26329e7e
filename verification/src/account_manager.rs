//! The ledger: owns every client's `Account` and the history of disputable
//! deposits, and drives the dispute lifecycle by correlating incoming
//! actions against that history before touching the corresponding account.

use std::collections::HashMap;

use vstd::prelude::*;

use crate::account::{Account, AccountError};
use crate::held_sum::{
    held_contrib, held_sum, lemma_held_contrib_le_sum, lemma_held_sum_insert,
    lemma_held_sum_remove,
};
use crate::types::{Action, ClientId, Transaction, TransactionId};

verus! {

broadcast use vstd::std_specs::hash::group_hash_axioms, vstd::set::group_set_axioms, vstd::map::group_map_axioms;

/// Error raised by ledger-level operations.
#[derive(Debug, Clone, Copy, PartialEq, Eq, Structural)]
pub enum AccountManagerError {
    /// A fund-level refusal, forwarded from the target account.
    Account(AccountError),
    /// A client referenced another client's transaction.
    Unauthorized { client_id: ClientId, owner_id: ClientId },
    /// Resolve or chargeback on an entry that is not under dispute.
    Undisputed { id: TransactionId },
    /// A second dispute on an entry that is already under dispute.
    AlreadyDisputed { id: TransactionId },
    /// The referenced transaction is unknown or was already charged back.
    TransactionNotFound { id: TransactionId },
}

pub type AccountManagerResult<T> = Result<T, AccountManagerError>;

/// The ledger's retained record of one successfully applied deposit:
/// the owning client, the original amount, and its dispute state.
#[derive(Debug, Clone, Copy, PartialEq, Eq, Structural)]
pub struct TxCacheEntry {
    pub client_id: ClientId,
    pub amount: u64,
    pub disputed: bool,
}

impl TxCacheEntry {
    pub fn new(client_id: ClientId, amount: u64) -> (r: TxCacheEntry)
        ensures
            r == (TxCacheEntry { client_id, amount, disputed: false }),
    {
        TxCacheEntry { client_id, amount, disputed: false }
    }
}

fn check_authorization(tx: &TxCacheEntry, client_id: ClientId) -> (r: AccountManagerResult<()>)
    ensures
        tx.client_id != client_id ==> r == Err::<(), AccountManagerError>(
            (AccountManagerError::Unauthorized { client_id, owner_id: tx.client_id }),
        ),
        tx.client_id == client_id ==> r == Ok::<(), AccountManagerError>(()),
{
    if tx.client_id != client_id {
        return Err(AccountManagerError::Unauthorized { client_id, owner_id: tx.client_id });
    }
    Ok(())
}

fn check_disputed(tx: &TxCacheEntry, id: TransactionId) -> (r: AccountManagerResult<()>)
    ensures
        !tx.disputed ==> r == Err::<(), AccountManagerError>(
            (AccountManagerError::Undisputed { id }),
        ),
        tx.disputed ==> r == Ok::<(), AccountManagerError>(()),
{
    if !tx.disputed {
        return Err(AccountManagerError::Undisputed { id });
    }
    Ok(())
}

fn check_undisputed(tx: &TxCacheEntry, id: TransactionId) -> (r: AccountManagerResult<()>)
    ensures
        tx.disputed ==> r == Err::<(), AccountManagerError>(
            (AccountManagerError::AlreadyDisputed { id }),
        ),
        !tx.disputed ==> r == Ok::<(), AccountManagerError>(()),
{
    if tx.disputed {
        return Err(AccountManagerError::AlreadyDisputed { id });
    }
    Ok(())
}

/// The account of client `c`, or a fresh zero account where none exists yet
/// (accounts are created implicitly on first reference).
pub open spec fn spec_account_or_zero(a: Map<ClientId, Account>, c: ClientId) -> Account {
    if a.dom().contains(c) {
        a[c]
    } else {
        Account::zero()
    }
}

/// The held bucket of client `c`, zero where no account exists.
pub open spec fn spec_held_of(a: Map<ClientId, Account>, c: ClientId) -> int {
    spec_account_or_zero(a, c).disputed as int
}

/// The total funds of client `c`, zero where no account exists.
pub open spec fn spec_total_of(a: Map<ClientId, Account>, c: ClientId) -> int {
    spec_account_or_zero(a, c).spec_total()
}

/// Client `c` has an account and it is locked.
pub open spec fn spec_locked(a: Map<ClientId, Account>, c: ClientId) -> bool {
    a.dom().contains(c) && a[c].locked
}

/// The invariant tying the history to the accounts: every account is
/// well-formed, each client's held bucket covers the sum of that client's
/// disputed entries, and every entry's owner has an account.
pub open spec fn maps_wf(h: Map<TransactionId, TxCacheEntry>, a: Map<ClientId, Account>) -> bool {
    &&& h.dom().finite()
    &&& a.dom().finite()
    &&& forall|c: ClientId| a.dom().contains(c) ==> (#[trigger] a[c]).wf()
    &&& forall|c: ClientId| #[trigger] held_sum(h, c) <= spec_held_of(a, c)
    &&& forall|k: TransactionId|
        h.dom().contains(k) ==> a.dom().contains((#[trigger] h[k]).client_id)
}

/// A deposit's amount still fits next to the target account's total; only
/// such a record can be applied on a machine with 64-bit amounts.
pub open spec fn spec_deposit_fits(a: Map<ClientId, Account>, t: Transaction) -> bool {
    match (t.action, t.amount) {
        (Action::Deposit, Some(amount)) => spec_total_of(a, t.client_id) + amount <= u64::MAX,
        _ => true,
    }
}

/// State after a deposit: the target account (created at zero if absent) is
/// credited, and the history entry for `tx_id` is written, overwriting any
/// earlier entry with the same identifier.
pub open spec fn spec_deposit(
    h: Map<TransactionId, TxCacheEntry>,
    a: Map<ClientId, Account>,
    tx_id: TransactionId,
    client_id: ClientId,
    amount: u64,
) -> (Map<TransactionId, TxCacheEntry>, Map<ClientId, Account>) {
    let acct = spec_account_or_zero(a, client_id);
    (
        h.insert(tx_id, TxCacheEntry { client_id, amount, disputed: false }),
        a.insert(
            client_id,
            Account {
                available: (acct.available + amount) as u64,
                disputed: acct.disputed,
                locked: acct.locked,
            },
        ),
    )
}

/// State and result of a withdrawal: the target account (created at zero if
/// absent) is debited, or the fund-level refusal is forwarded unchanged.
pub open spec fn spec_withdraw(
    a: Map<ClientId, Account>,
    client_id: ClientId,
    amount: u64,
) -> (Map<ClientId, Account>, AccountManagerResult<()>) {
    let acct = spec_account_or_zero(a, client_id);
    if acct.locked {
        (a.insert(client_id, acct), Err(AccountManagerError::Account(AccountError::Locked)))
    } else if amount > acct.available {
        (
            a.insert(client_id, acct),
            Err(
                AccountManagerError::Account(
                    AccountError::InsufficientFunds { requested: amount, available: acct.available },
                ),
            ),
        )
    } else {
        (
            a.insert(
                client_id,
                Account {
                    available: (acct.available - amount) as u64,
                    disputed: acct.disputed,
                    locked: acct.locked,
                },
            ),
            Ok(()),
        )
    }
}

/// State and result of a dispute: the entry must exist, belong to the
/// caller and not be under dispute already; the account must accept the
/// freeze. On success the amount moves from available to held and the entry
/// is marked disputed; any refusal leaves everything unchanged.
pub open spec fn spec_dispute(
    h: Map<TransactionId, TxCacheEntry>,
    a: Map<ClientId, Account>,
    tx_id: TransactionId,
    client_id: ClientId,
) -> (Map<TransactionId, TxCacheEntry>, Map<ClientId, Account>, AccountManagerResult<()>) {
    if !h.dom().contains(tx_id) {
        (h, a, Err(AccountManagerError::TransactionNotFound { id: tx_id }))
    } else if h[tx_id].client_id != client_id {
        (h, a, Err(AccountManagerError::Unauthorized { client_id, owner_id: h[tx_id].client_id }))
    } else if h[tx_id].disputed {
        (h, a, Err(AccountManagerError::AlreadyDisputed { id: tx_id }))
    } else {
        let acct = spec_account_or_zero(a, client_id);
        let amount = h[tx_id].amount;
        if acct.locked {
            (h, a, Err(AccountManagerError::Account(AccountError::Locked)))
        } else if amount > acct.available {
            (
                h,
                a,
                Err(
                    AccountManagerError::Account(
                        AccountError::InsufficientFunds {
                            requested: amount,
                            available: acct.available,
                        },
                    ),
                ),
            )
        } else {
            (
                h.insert(tx_id, TxCacheEntry { client_id, amount, disputed: true }),
                a.insert(
                    client_id,
                    Account {
                        available: (acct.available - amount) as u64,
                        disputed: (acct.disputed + amount) as u64,
                        locked: acct.locked,
                    },
                ),
                Ok(()),
            )
        }
    }
}

/// State and result of a resolve: the entry must exist, belong to the
/// caller and be under dispute. On success the amount moves back from held
/// to available and the entry is marked undisputed.
pub open spec fn spec_resolve(
    h: Map<TransactionId, TxCacheEntry>,
    a: Map<ClientId, Account>,
    tx_id: TransactionId,
    client_id: ClientId,
) -> (Map<TransactionId, TxCacheEntry>, Map<ClientId, Account>, AccountManagerResult<()>) {
    if !h.dom().contains(tx_id) {
        (h, a, Err(AccountManagerError::TransactionNotFound { id: tx_id }))
    } else if h[tx_id].client_id != client_id {
        (h, a, Err(AccountManagerError::Unauthorized { client_id, owner_id: h[tx_id].client_id }))
    } else if !h[tx_id].disputed {
        (h, a, Err(AccountManagerError::Undisputed { id: tx_id }))
    } else {
        let acct = spec_account_or_zero(a, client_id);
        let amount = h[tx_id].amount;
        (
            h.insert(tx_id, TxCacheEntry { client_id, amount, disputed: false }),
            a.insert(
                client_id,
                Account {
                    available: (acct.available + amount) as u64,
                    disputed: (acct.disputed - amount) as u64,
                    locked: acct.locked,
                },
            ),
            Ok(()),
        )
    }
}

/// State and result of a chargeback: the entry must exist, belong to the
/// caller and be under dispute. On success the amount leaves the held
/// bucket for good, the account is locked, and the entry is removed.
pub open spec fn spec_chargeback(
    h: Map<TransactionId, TxCacheEntry>,
    a: Map<ClientId, Account>,
    tx_id: TransactionId,
    client_id: ClientId,
) -> (Map<TransactionId, TxCacheEntry>, Map<ClientId, Account>, AccountManagerResult<()>) {
    if !h.dom().contains(tx_id) {
        (h, a, Err(AccountManagerError::TransactionNotFound { id: tx_id }))
    } else if h[tx_id].client_id != client_id {
        (h, a, Err(AccountManagerError::Unauthorized { client_id, owner_id: h[tx_id].client_id }))
    } else if !h[tx_id].disputed {
        (h, a, Err(AccountManagerError::Undisputed { id: tx_id }))
    } else {
        let acct = spec_account_or_zero(a, client_id);
        let amount = h[tx_id].amount;
        (
            h.remove(tx_id),
            a.insert(
                client_id,
                Account {
                    available: acct.available,
                    disputed: (acct.disputed - amount) as u64,
                    locked: true,
                },
            ),
            Ok(()),
        )
    }
}

/// The clients list after an operation that may create the account of `c`.
pub open spec fn spec_clients_after(
    a: Map<ClientId, Account>,
    clients: Seq<ClientId>,
    c: ClientId,
) -> Seq<ClientId> {
    if a.dom().contains(c) {
        clients
    } else {
        clients.push(c)
    }
}

/// One dispatched record, as a function from ledger state to ledger state
/// and result. A deposit or withdrawal without an amount is a no-op.
pub open spec fn spec_step(
    h: Map<TransactionId, TxCacheEntry>,
    a: Map<ClientId, Account>,
    t: Transaction,
) -> (Map<TransactionId, TxCacheEntry>, Map<ClientId, Account>, AccountManagerResult<()>) {
    match (t.action, t.amount) {
        (Action::Deposit, Some(amount)) => {
            let (h2, a2) = spec_deposit(h, a, t.id, t.client_id, amount);
            (h2, a2, Ok(()))
        },
        (Action::Deposit, None) => (h, a, Ok(())),
        (Action::Withdrawal, Some(amount)) => {
            let (a2, r2) = spec_withdraw(a, t.client_id, amount);
            (h, a2, r2)
        },
        (Action::Withdrawal, None) => (h, a, Ok(())),
        (Action::Dispute, _) => spec_dispute(h, a, t.id, t.client_id),
        (Action::Resolve, _) => spec_resolve(h, a, t.id, t.client_id),
        (Action::Chargeback, _) => spec_chargeback(h, a, t.id, t.client_id),
    }
}

/// The clients list after one dispatched record.
pub open spec fn spec_step_clients(
    a: Map<ClientId, Account>,
    clients: Seq<ClientId>,
    t: Transaction,
) -> Seq<ClientId> {
    match (t.action, t.amount) {
        (Action::Deposit, Some(_)) => spec_clients_after(a, clients, t.client_id),
        (Action::Withdrawal, Some(_)) => spec_clients_after(a, clients, t.client_id),
        _ => clients,
    }
}

/// A deposit keeps the maps invariant: the written entry is undisputed, so
/// no client's disputed sum grows, and no held bucket changes.
pub proof fn lemma_deposit_preserves_wf(
    h: Map<TransactionId, TxCacheEntry>,
    a: Map<ClientId, Account>,
    tx_id: TransactionId,
    client_id: ClientId,
    amount: u64,
)
    requires
        maps_wf(h, a),
        spec_total_of(a, client_id) + amount <= u64::MAX,
    ensures
        maps_wf(
            spec_deposit(h, a, tx_id, client_id, amount).0,
            spec_deposit(h, a, tx_id, client_id, amount).1,
        ),
{
    let (h2, a2) = spec_deposit(h, a, tx_id, client_id, amount);
    let e = TxCacheEntry { client_id, amount, disputed: false };
    assert forall|c: ClientId| #[trigger] held_sum(h2, c) <= spec_held_of(a2, c) by {
        lemma_held_sum_insert(h, c, tx_id, e);
        assert(spec_held_of(a2, c) == spec_held_of(a, c));
    };
}

/// A withdrawal keeps the maps invariant: the history is untouched and no
/// held bucket changes.
pub proof fn lemma_withdraw_preserves_wf(
    h: Map<TransactionId, TxCacheEntry>,
    a: Map<ClientId, Account>,
    client_id: ClientId,
    amount: u64,
)
    requires
        maps_wf(h, a),
    ensures
        maps_wf(h, spec_withdraw(a, client_id, amount).0),
{
    let a2 = spec_withdraw(a, client_id, amount).0;
    assert forall|c: ClientId| #[trigger] held_sum(h, c) <= spec_held_of(a2, c) by {
        assert(spec_held_of(a2, c) == spec_held_of(a, c));
    };
}

/// A successful dispute moves the entry's amount into both the client's
/// disputed sum and the client's held bucket, so the invariant is kept; a
/// refused dispute changes nothing.
pub proof fn lemma_dispute_preserves_wf(
    h: Map<TransactionId, TxCacheEntry>,
    a: Map<ClientId, Account>,
    tx_id: TransactionId,
    client_id: ClientId,
)
    requires
        maps_wf(h, a),
    ensures
        maps_wf(
            spec_dispute(h, a, tx_id, client_id).0,
            spec_dispute(h, a, tx_id, client_id).1,
        ),
{
    let (h2, a2, r) = spec_dispute(h, a, tx_id, client_id);
    if r is Ok {
        let amount = h[tx_id].amount;
        let e2 = TxCacheEntry { client_id, amount, disputed: true };
        assert forall|c: ClientId| #[trigger] held_sum(h2, c) <= spec_held_of(a2, c) by {
            lemma_held_sum_insert(h, c, tx_id, e2);
            assert(held_contrib(h[tx_id], c) == 0);
            if c == client_id {
                assert(spec_held_of(a2, c) == spec_held_of(a, c) + amount);
            } else {
                assert(spec_held_of(a2, c) == spec_held_of(a, c));
                assert(held_contrib(e2, c) == 0);
            }
        };
    }
}

/// A successful resolve removes the entry's amount from both the client's
/// disputed sum and the client's held bucket; the disputed amount is
/// covered by the held bucket, so nothing underflows.
pub proof fn lemma_resolve_preserves_wf(
    h: Map<TransactionId, TxCacheEntry>,
    a: Map<ClientId, Account>,
    tx_id: TransactionId,
    client_id: ClientId,
)
    requires
        maps_wf(h, a),
    ensures
        maps_wf(
            spec_resolve(h, a, tx_id, client_id).0,
            spec_resolve(h, a, tx_id, client_id).1,
        ),
{
    let (h2, a2, r) = spec_resolve(h, a, tx_id, client_id);
    if r is Ok {
        let amount = h[tx_id].amount;
        lemma_held_contrib_le_sum(h, client_id, tx_id);
        let e2 = TxCacheEntry { client_id, amount, disputed: false };
        assert forall|c: ClientId| #[trigger] held_sum(h2, c) <= spec_held_of(a2, c) by {
            lemma_held_sum_insert(h, c, tx_id, e2);
            assert(held_contrib(e2, c) == 0);
            if c == client_id {
                assert(held_contrib(h[tx_id], c) == amount);
                assert(spec_held_of(a2, c) == spec_held_of(a, c) - amount);
            } else {
                assert(held_contrib(h[tx_id], c) == 0);
                assert(spec_held_of(a2, c) == spec_held_of(a, c));
            }
        };
    }
}

/// A successful chargeback removes the entry outright, so the client's
/// disputed sum and held bucket both drop by the entry's amount.
pub proof fn lemma_chargeback_preserves_wf(
    h: Map<TransactionId, TxCacheEntry>,
    a: Map<ClientId, Account>,
    tx_id: TransactionId,
    client_id: ClientId,
)
    requires
        maps_wf(h, a),
    ensures
        maps_wf(
            spec_chargeback(h, a, tx_id, client_id).0,
            spec_chargeback(h, a, tx_id, client_id).1,
        ),
{
    let (h2, a2, r) = spec_chargeback(h, a, tx_id, client_id);
    if r is Ok {
        let amount = h[tx_id].amount;
        lemma_held_contrib_le_sum(h, client_id, tx_id);
        assert forall|c: ClientId| #[trigger] held_sum(h2, c) <= spec_held_of(a2, c) by {
            lemma_held_sum_remove(h, c, tx_id);
            if c == client_id {
                assert(held_contrib(h[tx_id], c) == amount);
                assert(spec_held_of(a2, c) == spec_held_of(a, c) - amount);
            } else {
                assert(held_contrib(h[tx_id], c) == 0);
                assert(spec_held_of(a2, c) == spec_held_of(a, c));
            }
        };
    }
}

/// One dispatched record keeps the maps invariant.
pub proof fn lemma_step_preserves_wf(
    h: Map<TransactionId, TxCacheEntry>,
    a: Map<ClientId, Account>,
    t: Transaction,
)
    requires
        maps_wf(h, a),
        spec_deposit_fits(a, t),
    ensures
        maps_wf(spec_step(h, a, t).0, spec_step(h, a, t).1),
{
    match (t.action, t.amount) {
        (Action::Deposit, Some(amount)) => {
            lemma_deposit_preserves_wf(h, a, t.id, t.client_id, amount);
        },
        (Action::Withdrawal, Some(amount)) => {
            lemma_withdraw_preserves_wf(h, a, t.client_id, amount);
        },
        (Action::Dispute, _) => {
            lemma_dispute_preserves_wf(h, a, t.id, t.client_id);
        },
        (Action::Resolve, _) => {
            lemma_resolve_preserves_wf(h, a, t.id, t.client_id);
        },
        (Action::Chargeback, _) => {
            lemma_chargeback_preserves_wf(h, a, t.id, t.client_id);
        },
        _ => {},
    }
}

/// Creating (or leaving alone) the account of `c` keeps the clients list in
/// step with the accounts' keys.
proof fn lemma_clients_created(
    a: Map<ClientId, Account>,
    clients: Seq<ClientId>,
    c: ClientId,
    v: Account,
)
    requires
        clients.no_duplicates(),
        forall|x: ClientId|
            #![trigger clients.contains(x)]
            #![trigger a.dom().contains(x)]
            clients.contains(x) <==> a.dom().contains(x),
    ensures
        spec_clients_after(a, clients, c).no_duplicates(),
        forall|x: ClientId|
            #![trigger spec_clients_after(a, clients, c).contains(x)]
            #![trigger a.insert(c, v).dom().contains(x)]
            spec_clients_after(a, clients, c).contains(x) <==> a.insert(c, v).dom().contains(x),
{
    broadcast use vstd::seq_lib::lemma_seq_contains_after_push;

    if !a.dom().contains(c) {
        let s2 = clients.push(c);
        assert(!clients.contains(c));
        assert forall|i: int, j: int|
            0 <= i < s2.len() && 0 <= j < s2.len() && i != j implies s2[i] != s2[j] by {
            if i == clients.len() as int && s2[j] == c {
                assert(clients[j] == c);
                assert(clients.contains(c));
            }
            if j == clients.len() as int && s2[i] == c {
                assert(clients[i] == c);
                assert(clients.contains(c));
            }
        };
    }
}

/// The ledger: accounts keyed by client, history keyed by transaction, and
/// the clients in order of first appearance (for a deterministic snapshot).
pub struct AccountManager {
    pub accounts: HashMap<ClientId, Account>,
    pub clients: Vec<ClientId>,
    pub tx_cache: HashMap<TransactionId, TxCacheEntry>,
}

impl AccountManager {
    /// Well-formed: the maps invariant holds and `clients` lists exactly the
    /// accounts' keys, each once.
    pub open spec fn wf(self) -> bool {
        &&& maps_wf(self.tx_cache@, self.accounts@)
        &&& self.clients@.no_duplicates()
        &&& forall|c: ClientId|
            #![trigger self.clients@.contains(c)]
            #![trigger self.accounts@.dom().contains(c)]
            self.clients@.contains(c) <==> self.accounts@.dom().contains(c)
    }

    pub fn new() -> (r: AccountManager)
        ensures
            r.wf(),
            r.accounts@ == Map::<ClientId, Account>::empty(),
            r.tx_cache@ == Map::<TransactionId, TxCacheEntry>::empty(),
            r.clients@ == Seq::<ClientId>::empty(),
    {
        let r = AccountManager {
            accounts: HashMap::new(),
            clients: Vec::new(),
            tx_cache: HashMap::new(),
        };
        proof {
            assert(r.tx_cache@.dom() =~= Set::<TransactionId>::empty());
            assert forall|c: ClientId| #[trigger] held_sum(r.tx_cache@, c) <= spec_held_of(
                r.accounts@,
                c,
            ) by {
                assert(held_sum(r.tx_cache@, c) == 0);
            };
        }
        r
    }

    /// Every (client, account) pair, in order of each client's first
    /// appearance in the input.
    pub fn accounts(&self) -> (r: Vec<(ClientId, Account)>)
        requires
            self.wf(),
        ensures
            r@.len() == self.clients@.len(),
            forall|i: int|
                0 <= i < r@.len() ==> (#[trigger] r@[i]).0 == self.clients@[i] && r@[i].1
                    == spec_account_or_zero(self.accounts@, self.clients@[i]),
    {
        let mut out: Vec<(ClientId, Account)> = Vec::new();
        let n: usize = self.clients.len();
        let mut i: usize = 0;
        while i < n
            invariant
                i <= n,
                n == self.clients@.len(),
                self.wf(),
                out@.len() == i as int,
                forall|j: int|
                    0 <= j < i as int ==> (#[trigger] out@[j]).0 == self.clients@[j] && out@[j].1
                        == spec_account_or_zero(self.accounts@, self.clients@[j]),
            decreases n - i,
        {
            let c: ClientId = self.clients[i];
            proof {
                assert(self.clients@.contains(self.clients@[i as int]));
            }
            let acct: Account = match self.accounts.get(&c) {
                Some(a) => *a,
                None => vstd::pervasive::unreached(),
            };
            out.push((c, acct));
            i = i + 1;
        }
        out
    }

    /// Fetch the client's account, creating it at zero (and recording the
    /// client) where none exists yet.
    fn account_or_create(&mut self, client_id: ClientId) -> (acct: Account)
        requires
            old(self).wf(),
        ensures
            final(self).wf(),
            acct == spec_account_or_zero(old(self).accounts@, client_id),
            final(self).tx_cache@ == old(self).tx_cache@,
            final(self).accounts@ == old(self).accounts@.insert(client_id, acct),
            final(self).clients@ == spec_clients_after(
                old(self).accounts@,
                old(self).clients@,
                client_id,
            ),
    {
        let ghost a0 = self.accounts@;
        let ghost clients0 = self.clients@;
        if !self.accounts.contains_key(&client_id) {
            self.clients.push(client_id);
            self.accounts.insert(client_id, Account::new());
        }
        let acct: Account = match self.accounts.get(&client_id) {
            Some(a) => *a,
            None => vstd::pervasive::unreached(),
        };
        proof {
            lemma_clients_created(a0, clients0, client_id, acct);
            assert(self.accounts@ =~= a0.insert(client_id, acct));
            assert forall|c: ClientId| #[trigger] held_sum(self.tx_cache@, c) <= spec_held_of(
                self.accounts@,
                c,
            ) by {
                assert(spec_held_of(self.accounts@, c) == spec_held_of(a0, c));
            };
        }
        acct
    }

    /// Apply a deposit: credit the client's account (created at zero if
    /// absent) and record a history entry for `tx_id`, silently overwriting
    /// any earlier entry with the same identifier. Never fails; the caller
    /// keeps the account's total representable (see
    /// [`AccountManager::can_process`]).
    pub fn deposit(&mut self, tx_id: TransactionId, client_id: ClientId, amount: u64)
        requires
            old(self).wf(),
            spec_total_of(old(self).accounts@, client_id) + amount <= u64::MAX,
        ensures
            final(self).wf(),
            final(self).tx_cache@ == spec_deposit(
                old(self).tx_cache@,
                old(self).accounts@,
                tx_id,
                client_id,
                amount,
            ).0,
            final(self).accounts@ == spec_deposit(
                old(self).tx_cache@,
                old(self).accounts@,
                tx_id,
                client_id,
                amount,
            ).1,
            final(self).clients@ == spec_clients_after(
                old(self).accounts@,
                old(self).clients@,
                client_id,
            ),
    {
        let ghost h0 = self.tx_cache@;
        let ghost a0 = self.accounts@;
        let mut acct = self.account_or_create(client_id);
        acct.deposit(amount);
        self.accounts.insert(client_id, acct);
        self.tx_cache.insert(tx_id, TxCacheEntry::new(client_id, amount));
        proof {
            lemma_deposit_preserves_wf(h0, a0, tx_id, client_id, amount);
            assert(self.accounts@ =~= spec_deposit(h0, a0, tx_id, client_id, amount).1);
        }
    }

    /// Apply a withdrawal: debit the client's account (created at zero if
    /// absent, in which case any positive amount is refused). The fund-level
    /// refusal is forwarded; the history is untouched, so withdrawals can
    /// never be disputed.
    pub fn withdraw(&mut self, client_id: ClientId, amount: u64) -> (r: AccountManagerResult<()>)
        requires
            old(self).wf(),
        ensures
            final(self).wf(),
            final(self).tx_cache@ == old(self).tx_cache@,
            final(self).accounts@ == spec_withdraw(old(self).accounts@, client_id, amount).0,
            r == spec_withdraw(old(self).accounts@, client_id, amount).1,
            final(self).clients@ == spec_clients_after(
                old(self).accounts@,
                old(self).clients@,
                client_id,
            ),
    {
        let ghost h0 = self.tx_cache@;
        let ghost a0 = self.accounts@;
        let mut acct = self.account_or_create(client_id);
        proof {
            lemma_withdraw_preserves_wf(h0, a0, client_id, amount);
        }
        let res = acct.withdraw(amount);
        match res {
            Ok(()) => {
                self.accounts.insert(client_id, acct);
                proof {
                    assert(self.accounts@ =~= spec_withdraw(a0, client_id, amount).0);
                }
                Ok(())
            },
            Err(e) => {
                proof {
                    assert(self.accounts@ =~= spec_withdraw(a0, client_id, amount).0);
                }
                Err(AccountManagerError::Account(e))
            },
        }
    }

    /// Apply a dispute: the entry must exist, belong to the caller and not
    /// already be under dispute, and the account must accept the freeze. On
    /// success the entry's amount moves from available to held and the
    /// entry is marked disputed. Every refusal, the account's included, is
    /// returned to the caller and leaves the ledger unchanged.
    pub fn dispute(&mut self, tx_id: TransactionId, client_id: ClientId) -> (r:
        AccountManagerResult<()>)
        requires
            old(self).wf(),
        ensures
            final(self).wf(),
            final(self).tx_cache@ == spec_dispute(
                old(self).tx_cache@,
                old(self).accounts@,
                tx_id,
                client_id,
            ).0,
            final(self).accounts@ == spec_dispute(
                old(self).tx_cache@,
                old(self).accounts@,
                tx_id,
                client_id,
            ).1,
            r == spec_dispute(old(self).tx_cache@, old(self).accounts@, tx_id, client_id).2,
            final(self).clients@ == old(self).clients@,
    {
        let ghost h0 = self.tx_cache@;
        let ghost a0 = self.accounts@;
        let entry: TxCacheEntry = match self.tx_cache.get(&tx_id) {
            Some(e) => *e,
            None => {
                return Err(AccountManagerError::TransactionNotFound { id: tx_id });
            },
        };
        match check_authorization(&entry, client_id) {
            Err(e) => {
                return Err(e);
            },
            Ok(()) => {},
        }
        match check_undisputed(&entry, tx_id) {
            Err(e) => {
                return Err(e);
            },
            Ok(()) => {},
        }
        let mut acct: Account = match self.accounts.get(&client_id) {
            Some(a) => *a,
            None => vstd::pervasive::unreached(),
        };
        match acct.dispute(entry.amount) {
            Err(e) => {
                return Err(AccountManagerError::Account(e));
            },
            Ok(()) => {},
        }
        self.accounts.insert(client_id, acct);
        self.tx_cache.insert(
            tx_id,
            TxCacheEntry { client_id, amount: entry.amount, disputed: true },
        );
        proof {
            lemma_dispute_preserves_wf(h0, a0, tx_id, client_id);
        }
        Ok(())
    }

    /// Apply a resolve: the entry must exist, belong to the caller and be
    /// under dispute. On success the entry's amount moves back from held to
    /// available and the entry is marked undisputed; a refusal leaves the
    /// ledger unchanged.
    pub fn resolve(&mut self, tx_id: TransactionId, client_id: ClientId) -> (r:
        AccountManagerResult<()>)
        requires
            old(self).wf(),
        ensures
            final(self).wf(),
            final(self).tx_cache@ == spec_resolve(
                old(self).tx_cache@,
                old(self).accounts@,
                tx_id,
                client_id,
            ).0,
            final(self).accounts@ == spec_resolve(
                old(self).tx_cache@,
                old(self).accounts@,
                tx_id,
                client_id,
            ).1,
            r == spec_resolve(old(self).tx_cache@, old(self).accounts@, tx_id, client_id).2,
            final(self).clients@ == old(self).clients@,
    {
        let ghost h0 = self.tx_cache@;
        let ghost a0 = self.accounts@;
        let entry: TxCacheEntry = match self.tx_cache.get(&tx_id) {
            Some(e) => *e,
            None => {
                return Err(AccountManagerError::TransactionNotFound { id: tx_id });
            },
        };
        match check_authorization(&entry, client_id) {
            Err(e) => {
                return Err(e);
            },
            Ok(()) => {},
        }
        match check_disputed(&entry, tx_id) {
            Err(e) => {
                return Err(e);
            },
            Ok(()) => {},
        }
        let mut acct: Account = match self.accounts.get(&client_id) {
            Some(a) => *a,
            None => vstd::pervasive::unreached(),
        };
        proof {
            lemma_held_contrib_le_sum(h0, client_id, tx_id);
            assert(held_contrib(h0[tx_id], client_id) == entry.amount);
            assert(entry.amount <= acct.disputed);
        }
        acct.resolve(entry.amount);
        self.accounts.insert(client_id, acct);
        self.tx_cache.insert(
            tx_id,
            TxCacheEntry { client_id, amount: entry.amount, disputed: false },
        );
        proof {
            lemma_resolve_preserves_wf(h0, a0, tx_id, client_id);
        }
        Ok(())
    }

    /// Apply a chargeback: the entry must exist, belong to the caller and
    /// be under dispute. On success the entry's amount leaves the held
    /// bucket for good, the account is locked forever, and the entry is
    /// removed, so the identifier can never be referenced again; a refusal
    /// leaves the ledger unchanged.
    pub fn chargeback(&mut self, tx_id: TransactionId, client_id: ClientId) -> (r:
        AccountManagerResult<()>)
        requires
            old(self).wf(),
        ensures
            final(self).wf(),
            final(self).tx_cache@ == spec_chargeback(
                old(self).tx_cache@,
                old(self).accounts@,
                tx_id,
                client_id,
            ).0,
            final(self).accounts@ == spec_chargeback(
                old(self).tx_cache@,
                old(self).accounts@,
                tx_id,
                client_id,
            ).1,
            r == spec_chargeback(old(self).tx_cache@, old(self).accounts@, tx_id, client_id).2,
            final(self).clients@ == old(self).clients@,
    {
        let ghost h0 = self.tx_cache@;
        let ghost a0 = self.accounts@;
        let entry: TxCacheEntry = match self.tx_cache.get(&tx_id) {
            Some(e) => *e,
            None => {
                return Err(AccountManagerError::TransactionNotFound { id: tx_id });
            },
        };
        match check_authorization(&entry, client_id) {
            Err(e) => {
                return Err(e);
            },
            Ok(()) => {},
        }
        match check_disputed(&entry, tx_id) {
            Err(e) => {
                return Err(e);
            },
            Ok(()) => {},
        }
        let mut acct: Account = match self.accounts.get(&client_id) {
            Some(a) => *a,
            None => vstd::pervasive::unreached(),
        };
        proof {
            lemma_held_contrib_le_sum(h0, client_id, tx_id);
            assert(held_contrib(h0[tx_id], client_id) == entry.amount);
            assert(entry.amount <= acct.disputed);
        }
        acct.chargeback(entry.amount);
        self.accounts.insert(client_id, acct);
        self.tx_cache.remove(&tx_id);
        proof {
            lemma_chargeback_preserves_wf(h0, a0, tx_id, client_id);
        }
        Ok(())
    }

    /// True when `process_transaction` accepts `tx` in the current state:
    /// only a deposit whose amount would push the client's total past the
    /// largest representable amount is ruled out.
    pub fn can_process(&self, tx: &Transaction) -> (r: bool)
        requires
            self.wf(),
        ensures
            r == spec_deposit_fits(self.accounts@, *tx),
    {
        match (tx.action, tx.amount) {
            (Action::Deposit, Some(amount)) => {
                let acct: Account = match self.accounts.get(&tx.client_id) {
                    Some(a) => *a,
                    None => Account::new(),
                };
                let total: u64 = acct.total();
                amount <= u64::MAX - total
            },
            _ => true,
        }
    }
}

/// Dispatch one record to the operation matching its action kind. A deposit
/// or withdrawal without an amount is skipped as a successful no-op.
pub fn process_transaction(
    account_manager: &mut AccountManager,
    tx: Transaction,
) -> (r: AccountManagerResult<()>)
    requires
        old(account_manager).wf(),
        spec_deposit_fits(old(account_manager).accounts@, tx),
    ensures
        final(account_manager).wf(),
        final(account_manager).tx_cache@ == spec_step(
            old(account_manager).tx_cache@,
            old(account_manager).accounts@,
            tx,
        ).0,
        final(account_manager).accounts@ == spec_step(
            old(account_manager).tx_cache@,
            old(account_manager).accounts@,
            tx,
        ).1,
        r == spec_step(old(account_manager).tx_cache@, old(account_manager).accounts@, tx).2,
        final(account_manager).clients@ == spec_step_clients(
            old(account_manager).accounts@,
            old(account_manager).clients@,
            tx,
        ),
{
    match tx.action {
        Action::Deposit => {
            if let Some(amount) = tx.amount {
                account_manager.deposit(tx.id, tx.client_id, amount);
            }
            Ok(())
        },
        Action::Withdrawal => {
            if let Some(amount) = tx.amount {
                account_manager.withdraw(tx.client_id, amount)
            } else {
                Ok(())
            }
        },
        Action::Dispute => account_manager.dispute(tx.id, tx.client_id),
        Action::Resolve => account_manager.resolve(tx.id, tx.client_id),
        Action::Chargeback => account_manager.chargeback(tx.id, tx.client_id),
    }
}

} // verus!
