//! Principal ledger: aggregate staked principal and accrued-but-uncompounded
//! rewards. Subtraction is guarded by an explicit sufficiency precondition:
//! a redemption above the recorded principal is an invariant violation, not a
//! recoverable state.

use vstd::prelude::*;

verus! {

pub struct PrincipalLedger {
    pub total_staked: u128,
    pub total_rewards: u128,
}

impl PrincipalLedger {
    pub fn new() -> (l: PrincipalLedger)
        ensures
            l.total_staked == 0,
            l.total_rewards == 0,
    {
        PrincipalLedger { total_staked: 0, total_rewards: 0 }
    }

    /// Unconditional increase of the recorded principal.
    pub fn increase(&mut self, amount: u128)
        requires
            old(self).total_staked + amount <= u128::MAX,
        ensures
            final(self).total_staked == old(self).total_staked + amount,
            final(self).total_rewards == old(self).total_rewards,
    {
        self.total_staked = self.total_staked + amount;
    }

    /// Decrease of the recorded principal; the caller must have checked
    /// sufficiency, as a shortfall here means the accounting is broken.
    pub fn decrease(&mut self, amount: u128)
        requires
            amount <= old(self).total_staked,
        ensures
            final(self).total_staked == old(self).total_staked - amount,
            final(self).total_rewards == old(self).total_rewards,
    {
        self.total_staked = self.total_staked - amount;
    }

    /// Records externally earned rewards; nothing in this core calls it, the
    /// reward source is the host's concern.
    pub fn accrue(&mut self, amount: u128)
        requires
            old(self).total_rewards + amount <= u128::MAX,
        ensures
            final(self).total_staked == old(self).total_staked,
            final(self).total_rewards == old(self).total_rewards + amount,
    {
        self.total_rewards = self.total_rewards + amount;
    }

    /// Reads and zeroes the accrued rewards in one step.
    pub fn settle(&mut self) -> (rewards: u128)
        ensures
            rewards == old(self).total_rewards,
            final(self).total_rewards == 0,
            final(self).total_staked == old(self).total_staked,
    {
        let rewards = self.total_rewards;
        self.total_rewards = 0;
        rewards
    }
}

} // verus!
