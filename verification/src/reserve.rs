//! Liquidity reserve: the segregated balance that services instant
//! redemptions. Reserving checks sufficiency before any effect, so a failed
//! reservation leaves the balance untouched.

use vstd::prelude::*;

verus! {

pub struct LiquidityReserve {
    pub balance: u128,
}

impl LiquidityReserve {
    pub fn new() -> (r: LiquidityReserve)
        ensures
            r.balance == 0,
    {
        LiquidityReserve { balance: 0 }
    }

    /// Unconditional increase of the reserve.
    pub fn deposit(&mut self, amount: u128)
        requires
            old(self).balance + amount <= u128::MAX,
        ensures
            final(self).balance == old(self).balance + amount,
    {
        self.balance = self.balance + amount;
    }

    /// Takes `amount` out of the reserve; returns whether the reserve was
    /// sufficient, and mutates nothing when it was not.
    pub fn reserve(&mut self, amount: u128) -> (ok: bool)
        ensures
            ok <==> amount <= old(self).balance,
            ok ==> final(self).balance == old(self).balance - amount,
            !ok ==> *final(self) == *old(self),
    {
        if self.balance < amount {
            return false;
        }
        self.balance = self.balance - amount;
        true
    }
}

} // verus!
