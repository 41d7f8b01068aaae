//! Derivative receipt token: balance, allowance and supply bookkeeping, with
//! minting and burning reserved to one configured principal, the staking
//! pool. The ledger's own invariant is that the total supply equals the sum
//! of all balances; every operation here preserves it.

use crate::table::{lemma_lookup_le_total, AmountTable};
use vstd::prelude::*;

verus! {

#[derive(Clone, Copy, Debug, PartialEq, Eq)]
pub enum Error {
    InsufficientBalance,
    Unauthorized,
    InsufficientAllowance,
}

/// Span of one owner's block of allowance keys: owner and spender addresses
/// are packed into a single table key as `owner * 2^64 + spender`.
pub const ALLOWANCE_KEY_SPAN: u128 = 0x1_0000_0000_0000_0000;

pub open spec fn spec_allowance_key(owner: u64, spender: u64) -> u128 {
    ((owner as int) * (ALLOWANCE_KEY_SPAN as int) + (spender as int)) as u128
}

/// Packing an (owner, spender) pair into one key loses nothing: distinct
/// pairs get distinct keys.
pub proof fn lemma_allowance_key_injective(o1: u64, s1: u64, o2: u64, s2: u64)
    requires
        spec_allowance_key(o1, s1) == spec_allowance_key(o2, s2),
    ensures
        o1 == o2 && s1 == s2,
{
    assert((o1 as int) * (ALLOWANCE_KEY_SPAN as int) + (s1 as int) == (o2 as int) * (
    ALLOWANCE_KEY_SPAN as int) + (s2 as int));
}

fn allowance_key(owner: u64, spender: u64) -> (k: u128)
    ensures
        k == spec_allowance_key(owner, spender),
{
    (owner as u128) * ALLOWANCE_KEY_SPAN + (spender as u128)
}

pub struct StCSPRToken {
    pub name: String,
    pub symbol: String,
    pub decimals: u8,
    pub total_supply: u128,
    pub balances: AmountTable,
    pub allowances: AmountTable,
    pub staking_pool: u64,
}

impl StCSPRToken {
    /// Ledger invariant: the tables are well formed and the recorded supply
    /// is exactly the sum of all balances.
    pub open spec fn wf(self) -> bool {
        &&& self.balances.wf()
        &&& self.allowances.wf()
        &&& self.balances.total() == self.total_supply
    }

    pub open spec fn spec_balance(self, account: u64) -> u128 {
        self.balances.spec_get(account as u128)
    }

    pub open spec fn spec_allowance(self, owner: u64, spender: u64) -> u128 {
        self.allowances.spec_get(spec_allowance_key(owner, spender))
    }

    /// Token metadata and the mint/burn authority are fixed at creation;
    /// holding them equal across an operation says the operation only moved
    /// amounts.
    pub open spec fn same_config(self, other: StCSPRToken) -> bool {
        &&& self.name == other.name
        &&& self.symbol == other.symbol
        &&& self.decimals == other.decimals
        &&& self.staking_pool == other.staking_pool
    }

    pub fn init(staking_pool: u64) -> (t: StCSPRToken)
        ensures
            t.wf(),
            t.name@ == "Staked CSPR"@,
            t.symbol@ == "stCSPR"@,
            t.decimals == 9,
            t.total_supply == 0,
            t.staking_pool == staking_pool,
            forall|a: u64| t.spec_balance(a) == 0,
            forall|o: u64, s: u64| t.spec_allowance(o, s) == 0,
    {
        StCSPRToken {
            name: "Staked CSPR".to_owned(),
            symbol: "stCSPR".to_owned(),
            decimals: 9,
            total_supply: 0,
            balances: AmountTable::new(),
            allowances: AmountTable::new(),
            staking_pool,
        }
    }

    pub fn name(&self) -> (r: String)
        ensures
            r@ == self.name@,
    {
        self.name.clone()
    }

    pub fn symbol(&self) -> (r: String)
        ensures
            r@ == self.symbol@,
    {
        self.symbol.clone()
    }

    pub fn decimals(&self) -> (r: u8)
        ensures
            r == self.decimals,
    {
        self.decimals
    }

    pub fn total_supply(&self) -> (r: u128)
        ensures
            r == self.total_supply,
    {
        self.total_supply
    }

    pub fn balance_of(&self, account: u64) -> (r: u128)
        ensures
            r == self.spec_balance(account),
    {
        self.balances.get(account as u128)
    }

    pub fn allowance(&self, owner: u64, spender: u64) -> (r: u128)
        ensures
            r == self.spec_allowance(owner, spender),
    {
        let k = allowance_key(owner, spender);
        self.allowances.get(k)
    }

    /// Moves `amount` from `sender` to `recipient`. The sender's balance is
    /// written first, so that a transfer to oneself nets to zero and the
    /// supply stays the sum of balances.
    fn transfer_internal(&mut self, sender: u64, recipient: u64, amount: u128)
        requires
            old(self).wf(),
            amount <= old(self).spec_balance(sender),
        ensures
            final(self).wf(),
            sender != recipient ==> final(self).spec_balance(sender) == old(self).spec_balance(
                sender,
            ) - amount,
            sender != recipient ==> final(self).spec_balance(recipient) == old(self).spec_balance(
                recipient,
            ) + amount,
            sender == recipient ==> forall|a: u64|
                final(self).spec_balance(a) == old(self).spec_balance(a),
            forall|a: u64|
                a != sender && a != recipient ==> final(self).spec_balance(a) == old(
                    self,
                ).spec_balance(a),
            final(self).total_supply == old(self).total_supply,
            final(self).allowances == old(self).allowances,
            final(self).same_config(*old(self)),
    {
        let sender_balance = self.balances.get(sender as u128);
        self.balances.set(sender as u128, sender_balance - amount);
        proof {
            lemma_lookup_le_total(self.balances.entries@, recipient as u128);
        }
        let recipient_balance = self.balances.get(recipient as u128);
        self.balances.set(recipient as u128, recipient_balance + amount);
    }

    pub fn transfer(&mut self, caller: u64, recipient: u64, amount: u128) -> (result: Result<
        (),
        Error,
    >)
        requires
            old(self).wf(),
        ensures
            final(self).wf(),
            result == Err::<(), Error>(Error::InsufficientBalance) <==> old(self).spec_balance(
                caller,
            ) < amount,
            result is Ok <==> old(self).spec_balance(caller) >= amount,
            result is Err ==> *final(self) == *old(self),
            result is Ok ==> {
                &&& caller != recipient ==> final(self).spec_balance(caller) == old(
                    self,
                ).spec_balance(caller) - amount
                &&& caller != recipient ==> final(self).spec_balance(recipient) == old(
                    self,
                ).spec_balance(recipient) + amount
                &&& caller == recipient ==> forall|a: u64|
                    final(self).spec_balance(a) == old(self).spec_balance(a)
                &&& forall|a: u64|
                    a != caller && a != recipient ==> final(self).spec_balance(a) == old(
                        self,
                    ).spec_balance(a)
                &&& final(self).total_supply == old(self).total_supply
                &&& final(self).allowances == old(self).allowances
                &&& final(self).same_config(*old(self))
            },
    {
        let sender_balance = self.balances.get(caller as u128);
        if sender_balance < amount {
            return Err(Error::InsufficientBalance);
        }
        self.transfer_internal(caller, recipient, amount);
        Ok(())
    }

    pub fn approve(&mut self, caller: u64, spender: u64, amount: u128)
        requires
            old(self).wf(),
        ensures
            final(self).wf(),
            final(self).spec_allowance(caller, spender) == amount,
            forall|o: u64, s: u64|
                !(o == caller && s == spender) ==> final(self).spec_allowance(o, s) == old(
                    self,
                ).spec_allowance(o, s),
            final(self).balances == old(self).balances,
            final(self).total_supply == old(self).total_supply,
            final(self).same_config(*old(self)),
    {
        let k = allowance_key(caller, spender);
        self.allowances.set(k, amount);
        proof {
            assert forall|o: u64, s: u64| !(o == caller && s == spender) implies self.spec_allowance(
                o,
                s,
            ) == old(self).spec_allowance(o, s) by {
                if spec_allowance_key(o, s) == spec_allowance_key(caller, spender) {
                    lemma_allowance_key_injective(o, s, caller, spender);
                }
            }
        }
    }

    pub fn transfer_from(&mut self, caller: u64, owner: u64, recipient: u64, amount: u128) -> (result: Result<(), Error>)
        requires
            old(self).wf(),
        ensures
            final(self).wf(),
            result == Err::<(), Error>(Error::InsufficientAllowance) <==> old(self).spec_allowance(
                owner,
                caller,
            ) < amount,
            result == Err::<(), Error>(Error::InsufficientBalance) <==> old(self).spec_allowance(
                owner,
                caller,
            ) >= amount && old(self).spec_balance(owner) < amount,
            result is Ok <==> old(self).spec_allowance(owner, caller) >= amount && old(
                self,
            ).spec_balance(owner) >= amount,
            result is Err ==> *final(self) == *old(self),
            result is Ok ==> {
                &&& final(self).spec_allowance(owner, caller) == old(self).spec_allowance(
                    owner,
                    caller,
                ) - amount
                &&& forall|o: u64, s: u64|
                    !(o == owner && s == caller) ==> final(self).spec_allowance(o, s) == old(
                        self,
                    ).spec_allowance(o, s)
                &&& owner != recipient ==> final(self).spec_balance(owner) == old(
                    self,
                ).spec_balance(owner) - amount
                &&& owner != recipient ==> final(self).spec_balance(recipient) == old(
                    self,
                ).spec_balance(recipient) + amount
                &&& owner == recipient ==> forall|a: u64|
                    final(self).spec_balance(a) == old(self).spec_balance(a)
                &&& forall|a: u64|
                    a != owner && a != recipient ==> final(self).spec_balance(a) == old(
                        self,
                    ).spec_balance(a)
                &&& final(self).total_supply == old(self).total_supply
                &&& final(self).same_config(*old(self))
            },
    {
        let k = allowance_key(owner, caller);
        let current_allowance = self.allowances.get(k);
        if current_allowance < amount {
            return Err(Error::InsufficientAllowance);
        }
        let owner_balance = self.balances.get(owner as u128);
        if owner_balance < amount {
            return Err(Error::InsufficientBalance);
        }
        self.allowances.set(k, current_allowance - amount);
        proof {
            assert forall|o: u64, s: u64| !(o == owner && s == caller) implies self.spec_allowance(
                o,
                s,
            ) == old(self).spec_allowance(o, s) by {
                if spec_allowance_key(o, s) == spec_allowance_key(owner, caller) {
                    lemma_allowance_key_injective(o, s, owner, caller);
                }
            }
        }
        self.transfer_internal(owner, recipient, amount);
        Ok(())
    }

    /// Creates `amount` new units for `recipient`; only the configured
    /// staking pool may call.
    pub fn mint(&mut self, caller: u64, recipient: u64, amount: u128) -> (result: Result<
        (),
        Error,
    >)
        requires
            old(self).wf(),
            caller == old(self).staking_pool ==> old(self).total_supply + amount <= u128::MAX,
        ensures
            final(self).wf(),
            result == Err::<(), Error>(Error::Unauthorized) <==> caller != old(self).staking_pool,
            result is Ok <==> caller == old(self).staking_pool,
            result is Err ==> *final(self) == *old(self),
            result is Ok ==> {
                &&& final(self).total_supply == old(self).total_supply + amount
                &&& final(self).spec_balance(recipient) == old(self).spec_balance(recipient)
                    + amount
                &&& forall|a: u64|
                    a != recipient ==> final(self).spec_balance(a) == old(self).spec_balance(a)
                &&& final(self).allowances == old(self).allowances
                &&& final(self).same_config(*old(self))
            },
    {
        if caller != self.staking_pool {
            return Err(Error::Unauthorized);
        }
        proof {
            lemma_lookup_le_total(self.balances.entries@, recipient as u128);
        }
        let balance = self.balances.get(recipient as u128);
        self.balances.set(recipient as u128, balance + amount);
        self.total_supply = self.total_supply + amount;
        Ok(())
    }

    /// Destroys `amount` units held by `account`; only the configured
    /// staking pool may call.
    pub fn burn(&mut self, caller: u64, account: u64, amount: u128) -> (result: Result<(), Error>)
        requires
            old(self).wf(),
        ensures
            final(self).wf(),
            result == Err::<(), Error>(Error::Unauthorized) <==> caller != old(self).staking_pool,
            result == Err::<(), Error>(Error::InsufficientBalance) <==> caller == old(
                self,
            ).staking_pool && old(self).spec_balance(account) < amount,
            result is Ok <==> caller == old(self).staking_pool && old(self).spec_balance(account)
                >= amount,
            result is Err ==> *final(self) == *old(self),
            result is Ok ==> {
                &&& final(self).total_supply == old(self).total_supply - amount
                &&& final(self).spec_balance(account) == old(self).spec_balance(account) - amount
                &&& forall|a: u64|
                    a != account ==> final(self).spec_balance(a) == old(self).spec_balance(a)
                &&& final(self).allowances == old(self).allowances
                &&& final(self).same_config(*old(self))
            },
    {
        if caller != self.staking_pool {
            return Err(Error::Unauthorized);
        }
        let balance = self.balances.get(account as u128);
        if balance < amount {
            return Err(Error::InsufficientBalance);
        }
        proof {
            lemma_lookup_le_total(self.balances.entries@, account as u128);
        }
        self.balances.set(account as u128, balance - amount);
        self.total_supply = self.total_supply - amount;
        Ok(())
    }
}

} // verus!
