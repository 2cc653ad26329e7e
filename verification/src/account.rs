//! One client's fund buckets and lock flag: a pure fund-level state machine
//! with no knowledge of clients or transaction identifiers.

use vstd::prelude::*;

verus! {

/// Error raised by fund-level operations on a single account.
#[derive(Debug, Clone, Copy, PartialEq, Eq, Structural)]
pub enum AccountError {
    /// The operation asked for more than the available balance.
    InsufficientFunds { requested: u64, available: u64 },
    /// The account was locked by an earlier chargeback.
    Locked,
}

pub type AccountResult<T> = Result<T, AccountError>;

/// Fund buckets of one client, in ten-thousandths of the currency unit.
///
/// `available` is free to withdraw or dispute; `disputed` is frozen pending
/// dispute outcomes; `locked` is set forever by the first chargeback.
#[derive(Debug, Clone, Copy)]
pub struct Account {
    pub available: u64,
    pub disputed: u64,
    pub locked: bool,
}

impl Account {
    /// Well-formed: the two buckets sum to a total that the machine can
    /// represent, so `total()` never overflows.
    pub open spec fn wf(self) -> bool {
        self.available + self.disputed <= u64::MAX
    }

    /// Total funds: available plus held.
    pub open spec fn spec_total(self) -> int {
        self.available + self.disputed
    }

    /// The state every account starts in: zero balances, unlocked.
    pub open spec fn zero() -> Account {
        Account { available: 0, disputed: 0, locked: false }
    }

    pub fn new() -> (r: Account)
        ensures
            r == Account::zero(),
    {
        Account { available: 0, disputed: 0, locked: false }
    }

    /// Credit `amount` to the available bucket. Deposits are exempt from the
    /// lock check and never fail; the caller keeps the total inside the
    /// representable range.
    pub fn deposit(&mut self, amount: u64)
        requires
            old(self).wf(),
            old(self).spec_total() + amount <= u64::MAX,
        ensures
            final(self).available == old(self).available + amount,
            final(self).disputed == old(self).disputed,
            final(self).locked == old(self).locked,
            final(self).wf(),
    {
        self.available = self.available + amount;
    }

    /// Debit `amount` from the available bucket. Refused on a locked account
    /// and refused rather than clamped when it would drive `available`
    /// negative.
    pub fn withdraw(&mut self, amount: u64) -> (r: AccountResult<()>)
        ensures
            old(self).locked ==> r == Err::<(), AccountError>(AccountError::Locked) && *final(self) == *old(self),
            !old(self).locked && amount > old(self).available ==> r == Err::<(), AccountError>(
                (AccountError::InsufficientFunds { requested: amount, available: old(self).available }),
            ) && *final(self) == *old(self),
            !old(self).locked && amount <= old(self).available ==> r == Ok::<(), AccountError>(())
                && final(self).available == old(self).available - amount
                && final(self).disputed == old(self).disputed
                && !final(self).locked,
            final(self).locked == old(self).locked,
            old(self).wf() ==> final(self).wf(),
    {
        self.check_locked()?;
        self.check_sufficient_funds(amount)?;
        self.available = self.available - amount;
        Ok(())
    }

    /// Freeze `amount`: move it from available to held. Refused on a locked
    /// account and refused when the funds were already spent (`amount`
    /// exceeds `available`), so a dispute never drives `available` negative.
    pub fn dispute(&mut self, amount: u64) -> (r: AccountResult<()>)
        requires
            old(self).wf(),
        ensures
            old(self).locked ==> r == Err::<(), AccountError>(AccountError::Locked) && *final(self) == *old(self),
            !old(self).locked && amount > old(self).available ==> r == Err::<(), AccountError>(
                (AccountError::InsufficientFunds { requested: amount, available: old(self).available }),
            ) && *final(self) == *old(self),
            !old(self).locked && amount <= old(self).available ==> r == Ok::<(), AccountError>(())
                && final(self).available == old(self).available - amount
                && final(self).disputed == old(self).disputed + amount
                && !final(self).locked,
            final(self).locked == old(self).locked,
            final(self).spec_total() == old(self).spec_total(),
            final(self).wf(),
    {
        self.check_locked()?;
        self.check_sufficient_funds(amount)?;
        self.available = self.available - amount;
        self.disputed = self.disputed + amount;
        Ok(())
    }

    /// Release `amount` of held funds back to available. Unconditional at
    /// this level: the funds are already accounted for in the held bucket,
    /// so the caller passes back no more than what is held there.
    pub fn resolve(&mut self, amount: u64)
        requires
            old(self).wf(),
            amount <= old(self).disputed,
        ensures
            final(self).available == old(self).available + amount,
            final(self).disputed == old(self).disputed - amount,
            final(self).locked == old(self).locked,
            final(self).spec_total() == old(self).spec_total(),
            final(self).wf(),
    {
        self.available = self.available + amount;
        self.disputed = self.disputed - amount;
    }

    /// Remove `amount` of held funds from the account for good and lock it.
    /// The caller passes back no more than what is held.
    pub fn chargeback(&mut self, amount: u64)
        requires
            amount <= old(self).disputed,
        ensures
            final(self).available == old(self).available,
            final(self).disputed == old(self).disputed - amount,
            final(self).locked,
            old(self).wf() ==> final(self).wf(),
    {
        self.disputed = self.disputed - amount;
        self.locked = true;
    }

    pub fn available(&self) -> (r: u64)
        ensures
            r == self.available,
    {
        self.available
    }

    pub fn total(&self) -> (r: u64)
        requires
            self.wf(),
        ensures
            r == self.spec_total(),
    {
        self.available + self.disputed
    }

    /// The held bucket (funds currently under dispute).
    pub fn disputed(&self) -> (r: u64)
        ensures
            r == self.disputed,
    {
        self.disputed
    }

    pub fn locked(&self) -> (r: bool)
        ensures
            r == self.locked,
    {
        self.locked
    }

    fn check_sufficient_funds(&self, requested: u64) -> (r: AccountResult<()>)
        ensures
            requested > self.available ==> r == Err::<(), AccountError>(
                (AccountError::InsufficientFunds { requested, available: self.available }),
            ),
            requested <= self.available ==> r == Ok::<(), AccountError>(()),
    {
        if requested > self.available {
            return Err(AccountError::InsufficientFunds {
                requested,
                available: self.available,
            });
        }
        Ok(())
    }

    fn check_locked(&self) -> (r: AccountResult<()>)
        ensures
            self.locked ==> r == Err::<(), AccountError>(AccountError::Locked),
            !self.locked ==> r == Ok::<(), AccountError>(()),
    {
        if self.locked {
            return Err(AccountError::Locked);
        }
        Ok(())
    }
}

} // verus!
