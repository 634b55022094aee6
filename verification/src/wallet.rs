use vstd::prelude::*;
use crate::asset::Asset;
use crate::decimal::{lemma_units_sign, Dec, Decimal};
use crate::ledger::{amount, distinct_keys, lemma_upsert, upsert, Ledger};

verus! {

#[derive(Debug, Clone, Copy, PartialEq, Eq, Structural)]
pub enum WalletError {
    /// More was asked for than is free.
    NotEnoughTotal,
    /// More was asked for than is reserved.
    NotEnoughReserved,
    /// An amount left the range of decimals.
    Overflow,
}

impl WalletError {
    /// The message of the error.
    pub fn to_string(&self) -> (r: String)
        ensures
            r@ == match self {
                WalletError::NotEnoughTotal => "Not enough total available."@,
                WalletError::NotEnoughReserved => "Not enough reserved."@,
                WalletError::Overflow => "Amount out of range."@,
            },
    {
        match self {
            WalletError::NotEnoughTotal => "Not enough total available.".to_owned(),
            WalletError::NotEnoughReserved => "Not enough reserved.".to_owned(),
            WalletError::Overflow => "Amount out of range.".to_owned(),
        }
    }
}

/// The mathematical content of a wallet: what is owned and what of it is
/// uncommitted, asset by asset.
pub struct Balances {
    pub total: Seq<(Seq<char>, Dec)>,
    pub free: Seq<(Seq<char>, Dec)>,
}

impl Balances {
    pub open spec fn total_of(self, asset: Seq<char>) -> Dec {
        amount(self.total, asset)
    }

    pub open spec fn free_of(self, asset: Seq<char>) -> Dec {
        amount(self.free, asset)
    }

    /// What is committed of `asset`: the owned less the free, `None` where
    /// the difference overflows.
    pub open spec fn reserved_of(self, asset: Seq<char>) -> Option<Dec> {
        self.total_of(asset).sub(self.free_of(asset))
    }

    pub open spec fn with_total(self, asset: Seq<char>, v: Dec) -> Balances {
        Balances { total: upsert(self.total, asset, v), free: self.free }
    }

    pub open spec fn with_free(self, asset: Seq<char>, v: Dec) -> Balances {
        Balances { total: self.total, free: upsert(self.free, asset, v) }
    }

    /// The balances after `qty` of `asset` came in.
    pub open spec fn deposit(self, qty: Dec, asset: Seq<char>) -> Result<Balances, WalletError> {
        match (self.total_of(asset).add(qty), self.free_of(asset).add(qty)) {
            (Some(total), Some(free)) => Ok(self.with_total(asset, total).with_free(asset, free)),
            _ => Err(WalletError::Overflow),
        }
    }

    /// The balances after `qty` of the free `asset` was committed.
    pub open spec fn reserve(self, qty: Dec, asset: Seq<char>) -> Result<Balances, WalletError> {
        if self.free_of(asset).lt(qty) {
            Err(WalletError::NotEnoughTotal)
        } else {
            match self.free_of(asset).sub(qty) {
                Some(free) => Ok(self.with_free(asset, free)),
                None => Err(WalletError::Overflow),
            }
        }
    }

    /// The balances after `qty` of the committed `asset` was set free again.
    pub open spec fn unreserve(self, qty: Dec, asset: Seq<char>) -> Result<Balances, WalletError> {
        match self.reserved_of(asset) {
            None => Err(WalletError::Overflow),
            Some(reserved) => if reserved.lt(qty) {
                Err(WalletError::NotEnoughReserved)
            } else {
                match self.free_of(asset).add(qty) {
                    Some(free) => Ok(self.with_free(asset, free)),
                    None => Err(WalletError::Overflow),
                }
            },
        }
    }

    /// The balances after all that was committed of `asset` was set free.
    pub open spec fn unreserve_all(self, asset: Seq<char>) -> Balances {
        self.with_free(asset, self.total_of(asset))
    }

    /// The balances after `qty` of the committed `asset` left the wallet.
    pub open spec fn withdraw(self, qty: Dec, asset: Seq<char>) -> Result<Balances, WalletError> {
        match self.reserved_of(asset) {
            None => Err(WalletError::Overflow),
            Some(reserved) => if reserved.lt(qty) {
                Err(WalletError::NotEnoughReserved)
            } else {
                match self.total_of(asset).sub(qty) {
                    Some(total) => Ok(self.with_total(asset, total)),
                    None => Err(WalletError::Overflow),
                }
            },
        }
    }
}

impl Balances {
    /// No more is free of `asset` than is owned: what is reserved is not negative.
    pub open spec fn covered(self, asset: Seq<char>) -> bool {
        self.free_of(asset).le(self.total_of(asset))
    }
}

/// A deposit keeps what is reserved from going negative, wherever the two sums are not rounded.
pub proof fn lemma_deposit_keeps_cover(w: Balances, qty: Dec, asset: Seq<char>)
    requires
        distinct_keys(w.total),
        distinct_keys(w.free),
        w.covered(asset),
        w.deposit(qty, asset).is_ok(),
        w.total_of(asset).sums_to(qty, w.total_of(asset).add(qty).unwrap()),
        w.free_of(asset).sums_to(qty, w.free_of(asset).add(qty).unwrap()),
    ensures
        w.deposit(qty, asset).unwrap().covered(asset),
{
    lemma_upsert(w.total, asset, w.total_of(asset).add(qty).unwrap());
    lemma_upsert(w.free, asset, w.free_of(asset).add(qty).unwrap());
}

/// Reserving keeps what is reserved from going negative, wherever the difference is not rounded.
pub proof fn lemma_reserve_keeps_cover(w: Balances, qty: Dec, asset: Seq<char>)
    requires
        distinct_keys(w.free),
        w.covered(asset),
        Dec::zero().le(qty),
        w.reserve(qty, asset).is_ok(),
        w.free_of(asset).sub(qty).unwrap().sums_to(qty, w.free_of(asset)),
    ensures
        w.reserve(qty, asset).unwrap().covered(asset),
{
    lemma_units_sign(Dec::zero());
    lemma_upsert(w.free, asset, w.free_of(asset).sub(qty).unwrap());
}

/// Setting free what was reserved never frees more than is owned, wherever
/// neither the reserve nor the sum is rounded.
pub proof fn lemma_unreserve_keeps_cover(w: Balances, qty: Dec, asset: Seq<char>)
    requires
        distinct_keys(w.free),
        w.unreserve(qty, asset).is_ok(),
        w.reserved_of(asset).unwrap().sums_to(w.free_of(asset), w.total_of(asset)),
        w.free_of(asset).sums_to(qty, w.free_of(asset).add(qty).unwrap()),
    ensures
        w.unreserve(qty, asset).unwrap().covered(asset),
{
    lemma_upsert(w.free, asset, w.free_of(asset).add(qty).unwrap());
}

/// After everything was set free, exactly what is owned is free.
pub proof fn lemma_unreserve_all_frees_total(w: Balances, asset: Seq<char>)
    requires
        distinct_keys(w.free),
    ensures
        w.unreserve_all(asset).free_of(asset) == w.total_of(asset),
        w.unreserve_all(asset).covered(asset),
{
    lemma_upsert(w.free, asset, w.total_of(asset));
}

/// A withdrawal takes from what was reserved only: afterwards no more is
/// free than is owned, wherever neither the reserve nor the difference is rounded.
pub proof fn lemma_withdraw_keeps_cover(w: Balances, qty: Dec, asset: Seq<char>)
    requires
        distinct_keys(w.total),
        w.withdraw(qty, asset).is_ok(),
        w.reserved_of(asset).unwrap().sums_to(w.free_of(asset), w.total_of(asset)),
        w.total_of(asset).sub(qty).unwrap().sums_to(qty, w.total_of(asset)),
    ensures
        w.withdraw(qty, asset).unwrap().covered(asset),
{
    lemma_upsert(w.total, asset, w.total_of(asset).sub(qty).unwrap());
}

/// What is owned of each asset, and how much of it is not committed.
#[derive(Debug)]
pub struct Wallet {
    total: Ledger<Asset>,
    free: Ledger<Asset>,
}

impl View for Wallet {
    type V = Balances;

    closed spec fn view(&self) -> Balances {
        Balances { total: self.total@, free: self.free@ }
    }
}

impl Clone for Wallet {
    fn clone(&self) -> (r: Wallet)
        ensures
            r@ == self@,
    {
        self.duplicate()
    }
}

impl Wallet {
    pub fn new() -> (r: Wallet)
        ensures
            r@.total == Seq::<(Seq<char>, Dec)>::empty(),
            r@.free == Seq::<(Seq<char>, Dec)>::empty(),
    {
        Wallet { total: Ledger::new(), free: Ledger::new() }
    }

    /// Whether nothing was ever booked as owned.
    pub fn is_fresh(&self) -> (r: bool)
        ensures
            r == (self@.total.len() == 0),
    {
        self.total.len() == 0
    }

    /// The assets with what is owned of each, in the order of first booking.
    pub fn assets(&self) -> (r: Vec<(Asset, Decimal)>)
        ensures
            r@.len() == self@.total.len(),
            forall|i: int|
                0 <= i < r@.len() ==> (#[trigger] r@[i]).0@ == self@.total[i].0 && r@[i].1@
                    == self@.total[i].1,
    {
        let mut out: Vec<(Asset, Decimal)> = Vec::new();
        let mut i: usize = 0;
        while i < self.total.len()
            invariant
                i <= self.total@.len(),
                out@.len() == i,
                forall|j: int|
                    0 <= j < i ==> (#[trigger] out@[j]).0@ == self.total@[j].0 && out@[j].1@
                        == self.total@[j].1,
            decreases self.total@.len() - i,
        {
            out.push((self.total.key_at(i).clone(), self.total.value_at(i)));
            i = i + 1;
        }
        out
    }

    /// What is not committed of `asset`.
    pub fn free(&self, asset: &Asset) -> (r: Decimal)
        ensures
            r@ == self@.free_of(asset@),
    {
        self.free.amount(asset)
    }

    /// What is owned of `asset`.
    pub fn total(&self, asset: &Asset) -> (r: Decimal)
        ensures
            r@ == self@.total_of(asset@),
    {
        self.total.amount(asset)
    }

    /// Books `qty` of `asset` as owned and free. On an error nothing changes.
    pub fn deposit(&mut self, qty: Decimal, asset: &Asset) -> (r: Result<(), WalletError>)
        requires
            Dec::zero().le(qty@),
        ensures
            match old(self)@.deposit(qty@, asset@) {
                Ok(after) => r.is_ok() && final(self)@ == after,
                Err(e) => r == Err::<(), WalletError>(e) && final(self)@ == old(self)@,
            },
    {
        let total = self.total.amount(asset).checked_add(qty);
        let free = self.free.amount(asset).checked_add(qty);
        match (total, free) {
            (Some(total), Some(free)) => {
                self.total.set(asset.clone(), total);
                self.free.set(asset.clone(), free);
                Ok(())
            },
            _ => Err(WalletError::Overflow),
        }
    }

    /// Commits `qty` of what is free of `asset`. On an error nothing changes.
    pub fn reserve(&mut self, qty: Decimal, asset: &Asset) -> (r: Result<(), WalletError>)
        requires
            Dec::zero().le(qty@),
        ensures
            match old(self)@.reserve(qty@, asset@) {
                Ok(after) => r.is_ok() && final(self)@ == after,
                Err(e) => r == Err::<(), WalletError>(e) && final(self)@ == old(self)@,
            },
    {
        let free = self.free.amount(asset);
        if free.lt(&qty) {
            return Err(WalletError::NotEnoughTotal);
        }
        match free.checked_sub(qty) {
            Some(free) => {
                self.free.set(asset.clone(), free);
                Ok(())
            },
            None => Err(WalletError::Overflow),
        }
    }

    /// Sets `qty` of what is committed of `asset` free again. On an error nothing changes.
    pub fn unreserve(&mut self, qty: Decimal, asset: &Asset) -> (r: Result<(), WalletError>)
        requires
            Dec::zero().le(qty@),
        ensures
            match old(self)@.unreserve(qty@, asset@) {
                Ok(after) => r.is_ok() && final(self)@ == after,
                Err(e) => r == Err::<(), WalletError>(e) && final(self)@ == old(self)@,
            },
    {
        let free = self.free.amount(asset);
        match self.total.amount(asset).checked_sub(free) {
            None => Err(WalletError::Overflow),
            Some(reserved) => {
                if reserved.lt(&qty) {
                    return Err(WalletError::NotEnoughReserved);
                }
                match free.checked_add(qty) {
                    Some(free) => {
                        self.free.set(asset.clone(), free);
                        Ok(())
                    },
                    None => Err(WalletError::Overflow),
                }
            },
        }
    }

    /// Sets all that is committed of `asset` free.
    pub fn unreserve_all(&mut self, asset: &Asset)
        ensures
            final(self)@ == old(self)@.unreserve_all(asset@),
    {
        let total = self.total.amount(asset);
        self.free.set(asset.clone(), total);
    }

    /// Takes `qty` of `asset` out of the wallet. It must have been
    /// reserved before. On an error nothing changes.
    pub fn withdraw(&mut self, qty: Decimal, asset: &Asset) -> (r: Result<(), WalletError>)
        requires
            Dec::zero().le(qty@),
        ensures
            match old(self)@.withdraw(qty@, asset@) {
                Ok(after) => r.is_ok() && final(self)@ == after,
                Err(e) => r == Err::<(), WalletError>(e) && final(self)@ == old(self)@,
            },
    {
        let total = self.total.amount(asset);
        match total.checked_sub(self.free.amount(asset)) {
            None => Err(WalletError::Overflow),
            Some(reserved) => {
                if reserved.lt(&qty) {
                    return Err(WalletError::NotEnoughReserved);
                }
                match total.checked_sub(qty) {
                    Some(total) => {
                        self.total.set(asset.clone(), total);
                        Ok(())
                    },
                    None => Err(WalletError::Overflow),
                }
            },
        }
    }

    pub fn duplicate(&self) -> (r: Wallet)
        ensures
            r@ == self@,
    {
        Wallet { total: self.total.duplicate(), free: self.free.duplicate() }
    }
}

} // verus!
