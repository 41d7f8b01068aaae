//! The staking pool: composes the exchange-rate engine, the principal
//! ledger, the liquidity reserve and the derivative token into the four pool
//! operations. Every operation either applies in full or, on an error,
//! leaves the pool exactly as it was; the backing invariant — recorded
//! principal always covers the derivative supply at the current rate — is
//! what makes compounding move the exchange rate only upward.

use crate::ledger::PrincipalLedger;
use crate::rate;
use crate::rate::{spec_to_base, spec_to_derivative, MAX_TOTAL_STAKED, RATE_SCALE};
use crate::reserve::LiquidityReserve;
use crate::table::lemma_lookup_le_total;
use crate::token::StCSPRToken;
use vstd::arithmetic::div_mod::{
    lemma_div_is_ordered, lemma_div_multiples_vanish, lemma_fundamental_div_mod, lemma_mod_bound,
};
use vstd::arithmetic::mul::{
    lemma_mul_increases, lemma_mul_inequality, lemma_mul_is_commutative,
    lemma_mul_is_distributive_add, lemma_mul_is_distributive_sub,
    lemma_mul_is_distributive_sub_other_way,
};
use vstd::pervasive::unreached;
use vstd::prelude::*;

verus! {

/// Smallest deposit accepted: one whole base-asset unit at nine decimals.
pub const MIN_STAKE_AMOUNT: u128 = 1_000_000_000;

/// Instant-redemption fee, in basis points.
pub const INSTANT_UNSTAKE_FEE_BP: u128 = 50;

pub const BASIS_POINTS: u128 = 10_000;

#[derive(Clone, Copy, Debug, PartialEq, Eq)]
pub enum Error {
    AmountTooSmall,
    InsufficientPoolLiquidity,
    InsufficientBalance,
}

/// Fee withheld from an instant redemption of `base` base units.
pub open spec fn spec_instant_fee(base: int) -> int {
    base * (INSTANT_UNSTAKE_FEE_BP as int) / (BASIS_POINTS as int)
}

/// What an instant redemption of `base` base units pays out after the fee.
pub open spec fn spec_instant_net(base: int) -> int {
    base - spec_instant_fee(base)
}

/// The instant fee is exact truncating arithmetic and never exceeds the base
/// amount it is charged on.
pub proof fn lemma_fee_bounds(base: int)
    requires
        0 <= base,
    ensures
        0 <= spec_instant_fee(base) <= base,
        0 <= spec_instant_net(base) <= base,
{
    let bp = INSTANT_UNSTAKE_FEE_BP as int;
    let denom = BASIS_POINTS as int;
    vstd::arithmetic::div_mod::lemma_div_pos_is_pos(base * bp, denom);
    assert(base * bp >= 0) by {
        vstd::arithmetic::mul::lemma_mul_nonnegative(base, bp);
    }
    lemma_mul_inequality(bp, denom, base);
    lemma_mul_is_commutative(bp, base);
    lemma_mul_is_commutative(denom, base);
    lemma_div_is_ordered(base * bp, base * denom, denom);
    lemma_div_multiples_vanish(base, denom);
}

/// One successful pool operation, reduced to its effect on the recorded
/// principal: a deposit of some base amount, or a withdrawal whose converted
/// base value is some amount.
pub enum StakeFlow {
    Deposit(u128),
    Withdraw(u128),
}

/// Recorded principal after a sequence of successful operations starting
/// from `start`.
pub open spec fn staked_after(start: int, flows: Seq<StakeFlow>) -> int
    decreases flows.len(),
{
    if flows.len() == 0 {
        start
    } else {
        match flows.last() {
            StakeFlow::Deposit(a) => staked_after(start, flows.drop_last()) + a,
            StakeFlow::Withdraw(b) => staked_after(start, flows.drop_last()) - b,
        }
    }
}

/// Sum of all deposited base amounts in the sequence.
pub open spec fn total_deposited(flows: Seq<StakeFlow>) -> int
    decreases flows.len(),
{
    if flows.len() == 0 {
        0
    } else {
        match flows.last() {
            StakeFlow::Deposit(a) => total_deposited(flows.drop_last()) + a,
            StakeFlow::Withdraw(_) => total_deposited(flows.drop_last()),
        }
    }
}

/// Sum of the converted base values of all withdrawals in the sequence.
pub open spec fn total_withdrawn(flows: Seq<StakeFlow>) -> int
    decreases flows.len(),
{
    if flows.len() == 0 {
        0
    } else {
        match flows.last() {
            StakeFlow::Deposit(_) => total_withdrawn(flows.drop_last()),
            StakeFlow::Withdraw(b) => total_withdrawn(flows.drop_last()) + b,
        }
    }
}

/// Conservation of principal: with no compounding in between, the recorded
/// principal after any sequence of successful deposits and withdrawals is
/// the starting principal plus everything deposited minus the converted base
/// value of everything withdrawn. A successful `deposit` adds exactly its
/// amount and a successful `withdraw` subtracts exactly its converted base
/// value (see their contracts), so their effects compose additively; the
/// instant-redemption fee is withheld from the payout, not taken out of the
/// recorded principal.
pub proof fn lemma_conservation(start: int, flows: Seq<StakeFlow>)
    ensures
        staked_after(start, flows) == start + total_deposited(flows) - total_withdrawn(flows),
    decreases flows.len(),
{
    if flows.len() > 0 {
        lemma_conservation(start, flows.drop_last());
    }
}

pub struct StakingPool {
    /// The pool's own principal identity, configured as the token's one
    /// authorized minter and burner.
    pub address: u64,
    pub token: StCSPRToken,
    pub ledger: PrincipalLedger,
    pub reserve: LiquidityReserve,
    /// Derivative-to-base factor, fixed point at scale `RATE_SCALE`.
    pub exchange_rate: u128,
}

impl StakingPool {
    /// Pool invariant: the token ledger is well formed and answers to this
    /// pool; the rate is positive; the principal (with pending rewards)
    /// stays below the width limit of the rate arithmetic; and the recorded
    /// principal covers the whole derivative supply at the current rate.
    pub open spec fn wf(self) -> bool {
        &&& self.token.wf()
        &&& self.token.staking_pool == self.address
        &&& 1 <= self.exchange_rate
        &&& self.ledger.total_staked + self.ledger.total_rewards <= MAX_TOTAL_STAKED
        &&& (self.exchange_rate as int) * (self.token.total_supply as int) <= (
        self.ledger.total_staked as int) * (RATE_SCALE as int)
    }

    /// Base value of `derivative_amount` at the pool's current rate.
    pub open spec fn spec_withdraw_base(self, derivative_amount: u128) -> int {
        spec_to_base(derivative_amount as int, self.exchange_rate as int)
    }

    pub fn init(pool_address: u64) -> (pool: StakingPool)
        ensures
            pool.wf(),
            pool.address == pool_address,
            pool.ledger.total_staked == 0,
            pool.ledger.total_rewards == 0,
            pool.reserve.balance == 0,
            pool.exchange_rate == RATE_SCALE,
            pool.token.total_supply == 0,
            forall|a: u64| pool.token.spec_balance(a) == 0,
    {
        StakingPool {
            address: pool_address,
            token: StCSPRToken::init(pool_address),
            ledger: PrincipalLedger::new(),
            reserve: LiquidityReserve::new(),
            exchange_rate: RATE_SCALE,
        }
    }

    /// Accepts `amount` base units from `caller` (already moved into pool
    /// custody by the host) and mints the derivative amount they buy at the
    /// current rate. Rejects dust deposits; the rate is unaffected.
    pub fn deposit(&mut self, caller: u64, amount: u128) -> (result: Result<u128, Error>)
        requires
            old(self).wf(),
            old(self).ledger.total_staked + old(self).ledger.total_rewards + amount
                <= MAX_TOTAL_STAKED,
        ensures
            final(self).wf(),
            result == Err::<u128, Error>(Error::AmountTooSmall) <==> amount < MIN_STAKE_AMOUNT,
            result is Ok <==> amount >= MIN_STAKE_AMOUNT,
            result is Err ==> *final(self) == *old(self),
            result matches Ok(minted) ==> {
                &&& minted == spec_to_derivative(amount as int, old(self).exchange_rate as int)
                &&& final(self).ledger.total_staked == old(self).ledger.total_staked + amount
                &&& final(self).ledger.total_rewards == old(self).ledger.total_rewards
                &&& final(self).exchange_rate == old(self).exchange_rate
                &&& final(self).reserve == old(self).reserve
                &&& final(self).address == old(self).address
                &&& final(self).token.total_supply == old(self).token.total_supply + minted
                &&& final(self).token.spec_balance(caller) == old(self).token.spec_balance(caller)
                    + minted
                &&& forall|a: u64|
                    a != caller ==> final(self).token.spec_balance(a) == old(
                        self,
                    ).token.spec_balance(a)
                &&& final(self).token.allowances == old(self).token.allowances
                &&& final(self).token.same_config(old(self).token)
            },
    {
        if amount < MIN_STAKE_AMOUNT {
            return Err(Error::AmountTooSmall);
        }
        let minted = rate::to_derivative(amount, self.exchange_rate);
        proof {
            let r = self.exchange_rate as int;
            let s = RATE_SCALE as int;
            let t = self.ledger.total_staked as int;
            let v = self.token.total_supply as int;
            let a = amount as int;
            let d = minted as int;
            lemma_fundamental_div_mod(a * s, r);
            lemma_mod_bound(a * s, r);
            assert(r * d <= a * s);
            lemma_mul_is_distributive_add(r, v, d);
            assert(r * (v + d) == r * v + r * d);
            lemma_mul_is_distributive_add(s, t, a);
            lemma_mul_is_commutative(s, t + a);
            lemma_mul_is_commutative(s, t);
            lemma_mul_is_commutative(s, a);
            assert((t + a) * s == t * s + a * s);
            lemma_mul_inequality(t + a, MAX_TOTAL_STAKED as int, s);
            assert(r * (v + d) <= (MAX_TOTAL_STAKED as int) * s);
            if v + d > 0 {
                lemma_mul_increases(r, v + d);
            }
            assert(v + d <= u128::MAX);
        }
        let mint_result = self.token.mint(self.address, caller, minted);
        match mint_result {
            Ok(()) => {},
            Err(_) => {
                return unreached();
            },
        }
        self.ledger.increase(amount);
        Ok(minted)
    }

    /// Redeems `derivative_amount` of the caller's derivative tokens for
    /// base value at the current rate. The instant path pays out of the
    /// liquidity reserve at a fee; the deferred path pays full value. All
    /// checks precede every state change, so a failure alters nothing.
    pub fn withdraw(&mut self, caller: u64, derivative_amount: u128, instant: bool) -> (result:
        Result<u128, Error>)
        requires
            old(self).wf(),
        ensures
            final(self).wf(),
            result == Err::<u128, Error>(Error::InsufficientBalance) <==> old(
                self,
            ).token.spec_balance(caller) < derivative_amount,
            result == Err::<u128, Error>(Error::InsufficientPoolLiquidity) <==> {
                &&& old(self).token.spec_balance(caller) >= derivative_amount
                &&& instant
                &&& old(self).reserve.balance < spec_instant_net(
                    old(self).spec_withdraw_base(derivative_amount),
                )
            },
            result is Ok <==> {
                &&& old(self).token.spec_balance(caller) >= derivative_amount
                &&& (instant ==> spec_instant_net(old(self).spec_withdraw_base(derivative_amount))
                    <= old(self).reserve.balance)
            },
            result is Err ==> *final(self) == *old(self),
            result matches Ok(paid) ==> ({
                let base = old(self).spec_withdraw_base(derivative_amount);
                let net = spec_instant_net(base);
                &&& paid == if instant {
                    net
                } else {
                    base
                }
                &&& final(self).ledger.total_staked == old(self).ledger.total_staked - base
                &&& final(self).ledger.total_rewards == old(self).ledger.total_rewards
                &&& final(self).exchange_rate == old(self).exchange_rate
                &&& final(self).address == old(self).address
                &&& final(self).reserve.balance as int == if instant {
                    old(self).reserve.balance - net
                } else {
                    old(self).reserve.balance as int
                }
                &&& final(self).token.total_supply == old(self).token.total_supply
                    - derivative_amount
                &&& final(self).token.spec_balance(caller) == old(self).token.spec_balance(caller)
                    - derivative_amount
                &&& forall|a: u64|
                    a != caller ==> final(self).token.spec_balance(a) == old(
                        self,
                    ).token.spec_balance(a)
                &&& final(self).token.allowances == old(self).token.allowances
                &&& final(self).token.same_config(old(self).token)
            }),
    {
        let derivative_balance = self.token.balance_of(caller);
        if derivative_balance < derivative_amount {
            return Err(Error::InsufficientBalance);
        }
        proof {
            let r = self.exchange_rate as int;
            let s = RATE_SCALE as int;
            let t = self.ledger.total_staked as int;
            let v = self.token.total_supply as int;
            let d = derivative_amount as int;
            lemma_lookup_le_total(self.token.balances.entries@, caller as u128);
            assert(d <= v);
            lemma_mul_inequality(d, v, r);
            lemma_mul_is_commutative(v, r);
            lemma_mul_inequality(t, MAX_TOTAL_STAKED as int, s);
            assert(d * r <= u128::MAX);
        }
        let base = rate::to_base(derivative_amount, self.exchange_rate);
        proof {
            let r = self.exchange_rate as int;
            let s = RATE_SCALE as int;
            let t = self.ledger.total_staked as int;
            let d = derivative_amount as int;
            lemma_div_is_ordered(d * r, t * s, s);
            lemma_mul_is_commutative(t, s);
            lemma_div_multiples_vanish(t, s);
            assert(base as int <= t);
            lemma_fee_bounds(base as int);
            lemma_mul_inequality(base as int, MAX_TOTAL_STAKED as int, INSTANT_UNSTAKE_FEE_BP as int);
        }
        let payout: u128;
        if instant {
            let fee = (base * INSTANT_UNSTAKE_FEE_BP) / BASIS_POINTS;
            let net = base - fee;
            if !self.reserve.reserve(net) {
                return Err(Error::InsufficientPoolLiquidity);
            }
            payout = net;
        } else {
            payout = base;
        }
        let burn_result = self.token.burn(self.address, caller, derivative_amount);
        match burn_result {
            Ok(()) => {},
            Err(_) => {
                return unreached();
            },
        }
        proof {
            let r = self.exchange_rate as int;
            let s = RATE_SCALE as int;
            let t = old(self).ledger.total_staked as int;
            let v = old(self).token.total_supply as int;
            let d = derivative_amount as int;
            let b = base as int;
            lemma_fundamental_div_mod(d * r, s);
            lemma_mod_bound(d * r, s);
            assert(s * b <= d * r);
            lemma_mul_is_distributive_sub(r, v, d);
            assert(r * (v - d) == r * v - r * d);
            lemma_mul_is_distributive_sub_other_way(s, t, b);
            lemma_mul_is_commutative(s, t - b);
            lemma_mul_is_commutative(s, t);
            lemma_mul_is_commutative(s, b);
            lemma_mul_is_commutative(r, d);
            lemma_mul_is_commutative(r, v);
            assert((t - b) * s == t * s - b * s);
            assert(r * (v - d) <= (t - b) * s);
        }
        self.ledger.decrease(base);
        Ok(payout)
    }

    /// Moves `amount` base units (already in pool custody) into the instant
    /// redemption reserve. The provider receives no receipt or credit.
    pub fn add_instant_liquidity(&mut self, amount: u128)
        requires
            old(self).wf(),
            old(self).reserve.balance + amount <= u128::MAX,
        ensures
            final(self).wf(),
            final(self).reserve.balance == old(self).reserve.balance + amount,
            final(self).ledger == old(self).ledger,
            final(self).token == old(self).token,
            final(self).exchange_rate == old(self).exchange_rate,
            final(self).address == old(self).address,
    {
        self.reserve.deposit(amount);
    }

    /// Folds accrued rewards into the principal and re-derives the exchange
    /// rate from the enlarged backing, so every current holder's claim grows
    /// proportionally. With no rewards pending this is a no-op; with no
    /// derivative supply the rate is left alone — the only division-by-zero
    /// guard the system needs.
    pub fn compound_rewards(&mut self)
        requires
            old(self).wf(),
        ensures
            final(self).wf(),
            old(self).ledger.total_rewards == 0 ==> *final(self) == *old(self),
            old(self).ledger.total_rewards > 0 ==> {
                &&& final(self).ledger.total_staked == old(self).ledger.total_staked + old(
                    self,
                ).ledger.total_rewards
                &&& final(self).ledger.total_rewards == 0
                &&& final(self).reserve == old(self).reserve
                &&& final(self).token == old(self).token
                &&& final(self).address == old(self).address
                &&& old(self).token.total_supply > 0 ==> final(self).exchange_rate as int == (
                final(self).ledger.total_staked as int) * (RATE_SCALE as int) / (
                old(self).token.total_supply as int)
                &&& old(self).token.total_supply > 0 ==> final(self).exchange_rate >= old(
                    self,
                ).exchange_rate
                &&& old(self).token.total_supply == 0 ==> final(self).exchange_rate == old(
                    self,
                ).exchange_rate
            },
    {
        let rewards = self.ledger.settle();
        if rewards == 0 {
            return;
        }
        self.ledger.increase(rewards);
        proof {
            let s = RATE_SCALE as int;
            let t = old(self).ledger.total_staked as int;
            let rew = rewards as int;
            lemma_mul_inequality(t, t + rew, s);
        }
        self.update_exchange_rate();
    }

    /// Re-derives the rate as `floor(total_staked * RATE_SCALE /
    /// total_supply)`; with no supply outstanding the stored rate stays.
    fn update_exchange_rate(&mut self)
        requires
            old(self).wf(),
        ensures
            final(self).wf(),
            final(self).ledger == old(self).ledger,
            final(self).reserve == old(self).reserve,
            final(self).token == old(self).token,
            final(self).address == old(self).address,
            old(self).token.total_supply > 0 ==> final(self).exchange_rate as int == (
            old(self).ledger.total_staked as int) * (RATE_SCALE as int) / (
            old(self).token.total_supply as int),
            old(self).token.total_supply > 0 ==> final(self).exchange_rate >= old(
                self,
            ).exchange_rate,
            old(self).token.total_supply == 0 ==> final(self).exchange_rate == old(
                self,
            ).exchange_rate,
    {
        let total_supply = self.token.total_supply();
        if total_supply > 0 {
            proof {
                let r = self.exchange_rate as int;
                let s = RATE_SCALE as int;
                let t = self.ledger.total_staked as int;
                let v = self.token.total_supply as int;
                lemma_mul_inequality(t, MAX_TOTAL_STAKED as int, s);
                lemma_div_multiples_vanish(r, v);
                lemma_mul_is_commutative(v, r);
                lemma_div_is_ordered(r * v, t * s, v);
                assert(r <= (t * s) / v);
                lemma_fundamental_div_mod(t * s, v);
                lemma_mod_bound(t * s, v);
                assert(v * ((t * s) / v) <= t * s);
                lemma_mul_is_commutative(v, (t * s) / v);
            }
            let new_rate = (self.ledger.total_staked * RATE_SCALE) / total_supply;
            self.exchange_rate = new_rate;
        }
    }

    pub fn get_total_staked(&self) -> (r: u128)
        ensures
            r == self.ledger.total_staked,
    {
        self.ledger.total_staked
    }

    pub fn get_exchange_rate(&self) -> (r: u128)
        ensures
            r == self.exchange_rate,
    {
        self.exchange_rate
    }

    pub fn get_instant_pool_balance(&self) -> (r: u128)
        ensures
            r == self.reserve.balance,
    {
        self.reserve.balance
    }

    pub fn get_stcspr_balance(&self, account: u64) -> (r: u128)
        ensures
            r == self.token.spec_balance(account),
    {
        self.token.balance_of(account)
    }

    pub fn get_stcspr_token_name(&self) -> (r: String)
        ensures
            r@ == self.token.name@,
    {
        self.token.name()
    }
}

} // verus!

